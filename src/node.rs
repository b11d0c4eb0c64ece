use vstd::prelude::*;
use crate::error::GameError;

verus! {

/// A neutral tree of named elements with attributes, children and text,
/// through which the game's values are exchanged.
#[derive(Debug)]
pub struct Node {
    pub name: String,
    pub attributes: Vec<(String, String)>,
    pub children: Vec<Node>,
    pub content: String,
}

/// The value of the first attribute called `key`.
pub open spec fn attr_value(attrs: Seq<(String, String)>, key: Seq<char>) -> Option<Seq<char>>
    decreases attrs.len(),
{
    if attrs.len() == 0 {
        None
    } else if attrs[0].0@ == key {
        Some(attrs[0].1@)
    } else {
        attr_value(attrs.drop_first(), key)
    }
}

/// Index of the first child called `name`.
pub open spec fn child_index(children: Seq<Node>, name: Seq<char>) -> Option<int>
    decreases children.len(),
{
    if children.len() == 0 {
        None
    } else if children[0].name@ == name {
        Some(0)
    } else {
        match child_index(children.drop_first(), name) {
            Some(i) => Some(i + 1),
            None => None,
        }
    }
}

impl Node {
    /// An element with a name and nothing else.
    pub fn new(name: &str) -> (r: Node)
        ensures
            r.name@ == name@,
            r.attributes@.len() == 0,
            r.children@.len() == 0,
            r.content@.len() == 0,
    {
        Node { name: name.to_owned(), attributes: Vec::new(), children: Vec::new(), content: String::new() }
    }

    /// Adds an attribute at the end.
    pub fn add_attribute(&mut self, key: &str, value: String)
        ensures
            final(self).name == old(self).name,
            final(self).children@ == old(self).children@,
            final(self).content == old(self).content,
            final(self).attributes@.len() == old(self).attributes@.len() + 1,
            forall|k: int| 0 <= k < old(self).attributes@.len() ==> final(self).attributes@[k] == old(self).attributes@[k],
            final(self).attributes@.last().0@ == key@,
            final(self).attributes@.last().1 == value,
    {
        self.attributes.push((key.to_owned(), value));
    }

    /// Adds a child at the end.
    pub fn add_child(&mut self, child: Node)
        ensures
            final(self).name == old(self).name,
            final(self).attributes@ == old(self).attributes@,
            final(self).content == old(self).content,
            final(self).children@ == old(self).children@.push(child),
    {
        self.children.push(child);
    }

    /// The value of the first attribute called `key`.
    pub fn attribute(&self, key: &str) -> (r: Result<&String, GameError>)
        ensures
            match r {
                Ok(v) => attr_value(self.attributes@, key@) == Some(v@),
                Err(e) => e == GameError::ParseError && attr_value(self.attributes@, key@) is None,
            },
    {
        let wanted = key.to_owned();
        assert(self.attributes@.subrange(0, self.attributes@.len() as int) =~= self.attributes@);
        let mut i: usize = 0;
        while i < self.attributes.len()
            invariant
                i <= self.attributes@.len(),
                wanted@ == key@,
                attr_value(self.attributes@, key@) == attr_value(self.attributes@.subrange(i as int, self.attributes@.len() as int), key@),
            decreases self.attributes@.len() - i,
        {
            let ghost rest = self.attributes@.subrange(i as int, self.attributes@.len() as int);
            assert(rest.drop_first() =~= self.attributes@.subrange(i as int + 1, self.attributes@.len() as int));
            if self.attributes[i].0 == wanted {
                return Ok(&self.attributes[i].1);
            }
            i = i + 1;
        }
        Err(GameError::ParseError)
    }

    /// The first child called `name`.
    pub fn child_by_name(&self, name: &str) -> (r: Result<&Node, GameError>)
        ensures
            match r {
                Ok(c) => exists|i: int| child_index(self.children@, name@) == Some(i) && self.children@[i] == *c,
                Err(e) => e == GameError::ParseError && child_index(self.children@, name@) is None,
            },
    {
        let wanted = name.to_owned();
        assert(self.children@.subrange(0, self.children@.len() as int) =~= self.children@);
        let mut i: usize = 0;
        while i < self.children.len()
            invariant
                i <= self.children@.len(),
                wanted@ == name@,
                child_index(self.children@, name@) == match child_index(self.children@.subrange(i as int, self.children@.len() as int), name@) {
                    Some(j) => Some(j + i),
                    None => None::<int>,
                },
            decreases self.children@.len() - i,
        {
            let ghost rest = self.children@.subrange(i as int, self.children@.len() as int);
            assert(rest.drop_first() =~= self.children@.subrange(i as int + 1, self.children@.len() as int));
            if self.children[i].name == wanted {
                assert(child_index(self.children@, name@) == Some(i as int));
                return Ok(&self.children[i]);
            }
            i = i + 1;
        }
        Err(GameError::ParseError)
    }
}

} // verus!
