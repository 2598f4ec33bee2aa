//! Which fields of a log are written.

use vstd::prelude::*;

verus! {

/// Shapes a log before it is written: where `only_fields` is given, only
/// the fields named there are kept; the fields named in `except_fields` are
/// left out.
#[derive(Clone, Debug, PartialEq, Eq)]
pub struct Transformer {
    pub only_fields: Option<Vec<String>>,
    pub except_fields: Option<Vec<String>>,
}

/// The texts of some names.
pub open spec fn names(list: Seq<String>) -> Seq<Seq<char>> {
    list.map_values(|s: String| s@)
}

/// Whether a field with this name is kept.
pub open spec fn keeps(transformer: Transformer, name: Seq<char>) -> bool {
    &&& match transformer.only_fields {
        Some(only) => names(only@).contains(name),
        None => true,
    }
    &&& match transformer.except_fields {
        Some(except) => !names(except@).contains(name),
        None => true,
    }
}

/// Whether a transformer keeps every field.
pub open spec fn keeps_all(transformer: Transformer) -> bool {
    transformer.only_fields.is_none() && transformer.except_fields.is_none()
}

/// Whether one transformer is a copy of another.
pub open spec fn same_transformer(a: Transformer, b: Transformer) -> bool {
    &&& match (a.only_fields, b.only_fields) {
        (Some(x), Some(y)) => x@ == y@,
        (None, None) => true,
        _ => false,
    }
    &&& match (a.except_fields, b.except_fields) {
        (Some(x), Some(y)) => x@ == y@,
        (None, None) => true,
        _ => false,
    }
}

/// Copies of two transformers keep the same fields.
pub proof fn lemma_same_transformer_keeps(a: Transformer, b: Transformer, name: Seq<char>)
    requires
        same_transformer(a, b),
    ensures
        keeps(a, name) == keeps(b, name),
{
}

fn holds(list: &Vec<String>, name: &String) -> (found: bool)
    ensures
        found == names(list@).contains(name@),
{
    let mut i: usize = 0;
    while i < list.len()
        invariant
            i <= list.len(),
            forall|j: int| 0 <= j < i ==> names(list@)[j] != name@,
        decreases list.len() - i,
    {
        if list[i] == *name {
            assert(names(list@)[i as int] == name@);
            return true;
        }
        i += 1;
    }
    false
}

fn copy_names(list: &Vec<String>) -> (copy: Vec<String>)
    ensures
        copy@ == list@,
{
    let mut copy: Vec<String> = Vec::new();
    let mut i: usize = 0;
    while i < list.len()
        invariant
            i <= list.len(),
            copy@ == list@.take(i as int),
        decreases list.len() - i,
    {
        copy.push(list[i].clone());
        proof {
            assert(copy@ =~= list@.take(i + 1));
        }
        i += 1;
    }
    proof {
        assert(list@.take(list.len() as int) == list@);
    }
    copy
}

impl Transformer {
    /// Tells whether a field with this name is kept.
    pub fn keeps_name(&self, name: &String) -> (kept: bool)
        ensures
            kept == keeps(*self, name@),
    {
        let wanted = match &self.only_fields {
            Some(only) => holds(only, name),
            None => true,
        };
        let refused = match &self.except_fields {
            Some(except) => holds(except, name),
            None => false,
        };
        wanted && !refused
    }

    /// A copy of the transformer.
    pub fn duplicate(&self) -> (copy: Transformer)
        ensures
            same_transformer(copy, *self),
    {
        Transformer {
            only_fields: match &self.only_fields {
                Some(only) => Some(copy_names(only)),
                None => None,
            },
            except_fields: match &self.except_fields {
                Some(except) => Some(copy_names(except)),
                None => None,
            },
        }
    }
}

impl Default for Transformer {
    fn default() -> (transformer: Transformer)
        ensures
            keeps_all(transformer),
    {
        Transformer { only_fields: None, except_fields: None }
    }
}

} // verus!
