//! Named values in the order in which their names were first seen, where a
//! name that comes again replaces the value it had.

use vstd::prelude::*;

verus! {

/// A name and its text.
#[derive(Clone, Debug, PartialEq, Eq)]
pub struct Label {
    pub key: String,
    pub value: String,
}

/// A name and its text as a model value.
pub type Pair = (Seq<char>, Seq<char>);

/// The models of some labels.
pub open spec fn pairs(labels: Seq<Label>) -> Seq<Pair> {
    labels.map_values(|l: Label| (l.key@, l.value@))
}

/// The position of the first pair at or after `from` with the name `key`,
/// or the length where there is none.
pub open spec fn find_key<V>(s: Seq<(Seq<char>, V)>, key: Seq<char>, from: int) -> int
    decreases s.len() - from,
{
    if from < 0 || from >= s.len() {
        s.len() as int
    } else if s[from].0 == key {
        from
    } else {
        find_key(s, key, from + 1)
    }
}

/// The text of the first pair with the name `key`.
pub open spec fn lookup<V>(s: Seq<(Seq<char>, V)>, key: Seq<char>) -> Option<V> {
    let i = find_key(s, key, 0);
    if i < s.len() {
        Some(s[i].1)
    } else {
        None
    }
}

/// The pairs with `key` set to `value`: in place where the name is there,
/// at the end where it is new.
pub open spec fn upsert<V>(s: Seq<(Seq<char>, V)>, key: Seq<char>, value: V) -> Seq<(Seq<char>, V)> {
    let i = find_key(s, key, 0);
    if i < s.len() {
        s.update(i, (key, value))
    } else {
        s.push((key, value))
    }
}

/// The pairs with each name once: names in the order in which they first
/// come, each with the text that came last.
pub open spec fn merged<V>(s: Seq<(Seq<char>, V)>) -> Seq<(Seq<char>, V)>
    decreases s.len(),
{
    if s.len() == 0 {
        Seq::empty()
    } else {
        upsert(merged(s.drop_last()), s.last().0, s.last().1)
    }
}

/// The text that came last for the name `key`.
pub open spec fn last_value<V>(s: Seq<(Seq<char>, V)>, key: Seq<char>) -> Option<V>
    decreases s.len(),
{
    if s.len() == 0 {
        None
    } else if s.last().0 == key {
        Some(s.last().1)
    } else {
        last_value(s.drop_last(), key)
    }
}

/// No two pairs have the same name.
pub open spec fn distinct_keys<V>(s: Seq<(Seq<char>, V)>) -> bool {
    forall|i: int, j: int|
        0 <= i < s.len() && 0 <= j < s.len() && i != j ==> (#[trigger] s[i]).0 != (#[trigger] s[j]).0
}

/// Where `find_key` stops: at a pair with the name, with none before it.
pub proof fn lemma_find_key<V>(s: Seq<(Seq<char>, V)>, key: Seq<char>, from: int)
    requires
        0 <= from <= s.len(),
    ensures
        from <= find_key(s, key, from) <= s.len(),
        find_key(s, key, from) < s.len() ==> s[find_key(s, key, from)].0 == key,
        forall|j: int| from <= j < find_key(s, key, from) ==> (#[trigger] s[j]).0 != key,
    decreases s.len() - from,
{
    if from < s.len() && s[from].0 != key {
        lemma_find_key(s, key, from + 1);
    }
}

pub proof fn lemma_find_key_at<V>(s: Seq<(Seq<char>, V)>, key: Seq<char>, from: int, at: int)
    requires
        0 <= from <= at <= s.len(),
        at < s.len() ==> s[at].0 == key,
        forall|j: int| from <= j < at ==> (#[trigger] s[j]).0 != key,
    ensures
        find_key(s, key, from) == at,
    decreases at - from,
{
    if from < at {
        lemma_find_key_at(s, key, from + 1, at);
    }
}

/// Setting a name changes what is found for that name and for no other.
pub proof fn lemma_upsert_lookup<V>(s: Seq<(Seq<char>, V)>, key: Seq<char>, value: V, other: Seq<char>)
    ensures
        lookup(upsert(s, key, value), other) == if other == key {
            Some(value)
        } else {
            lookup(s, other)
        },
{
    let t = upsert(s, key, value);
    lemma_find_key(s, key, 0);
    lemma_find_key(s, other, 0);
    let i = find_key(s, key, 0);
    let j = find_key(s, other, 0);
    if other == key {
        assert forall|k: int| 0 <= k < i implies (#[trigger] t[k]).0 != key by {
            assert(t[k] == s[k]);
        }
        lemma_find_key_at(t, key, 0, i);
    } else {
        assert forall|k: int| 0 <= k < j implies (#[trigger] t[k]).0 != other by {
            if k != i {
                assert(t[k] == s[k]);
            }
        }
        if j < s.len() {
            assert(t[j] == s[j]);
            lemma_find_key_at(t, other, 0, j);
        } else {
            lemma_find_key_at(t, other, 0, t.len() as int);
        }
    }
}

/// Setting a name moves no name that is there: each keeps its place, so
/// names stay in the order in which they first came.
pub proof fn lemma_upsert_keeps_places<V>(s: Seq<(Seq<char>, V)>, key: Seq<char>, value: V, other: Seq<char>)
    requires
        find_key(s, other, 0) < s.len(),
    ensures
        find_key(upsert(s, key, value), other, 0) == find_key(s, other, 0),
{
    let t = upsert(s, key, value);
    lemma_find_key(s, key, 0);
    lemma_find_key(s, other, 0);
    let i = find_key(s, key, 0);
    let j = find_key(s, other, 0);
    assert forall|k: int| 0 <= k < j implies (#[trigger] t[k]).0 != other by {
        if k != i {
            assert(t[k] == s[k]);
        }
    }
    assert(t[j].0 == other) by {
        if j != i {
            assert(t[j] == s[j]);
        }
    }
    lemma_find_key_at(t, other, 0, j);
}

/// Setting a name keeps the names apart.
pub proof fn lemma_upsert_distinct<V>(s: Seq<(Seq<char>, V)>, key: Seq<char>, value: V)
    requires
        distinct_keys(s),
    ensures
        distinct_keys(upsert(s, key, value)),
{
    lemma_find_key(s, key, 0);
}

/// After merging, each name stands once, and what is found for a name is
/// the text that came last for it.
pub proof fn lemma_merged<V>(s: Seq<(Seq<char>, V)>, key: Seq<char>)
    ensures
        distinct_keys(merged(s)),
        lookup(merged(s), key) == last_value(s, key),
    decreases s.len(),
{
    if s.len() > 0 {
        lemma_merged(s.drop_last(), key);
        lemma_upsert_distinct(merged(s.drop_last()), s.last().0, s.last().1);
        lemma_upsert_lookup(merged(s.drop_last()), s.last().0, s.last().1, key);
    }
}

/// The position of the first label named `key`, or the number of labels.
pub fn find(labels: &Vec<Label>, key: &String) -> (i: usize)
    ensures
        i == find_key(pairs(labels@), key@, 0),
        i <= labels.len(),
{
    let mut i: usize = 0;
    while i < labels.len() && !(labels[i].key == *key)
        invariant
            i <= labels.len(),
            find_key(pairs(labels@), key@, 0) == find_key(pairs(labels@), key@, i as int),
        decreases labels.len() - i,
    {
        i += 1;
    }
    i
}

/// The text of the first label named `key`.
pub fn get<'a>(labels: &'a Vec<Label>, key: &String) -> (value: Option<&'a String>)
    ensures
        match value {
            Some(v) => lookup(pairs(labels@), key@) == Some(v@),
            None => lookup(pairs(labels@), key@).is_none(),
        },
{
    let i = find(labels, key);
    if i < labels.len() {
        Some(&labels[i].value)
    } else {
        None
    }
}

/// Sets a name to a text: in place where the name is there, at the end
/// where it is new.
pub fn assign(labels: &mut Vec<Label>, label: Label)
    ensures
        pairs(final(labels)@) == upsert(pairs(old(labels)@), label.key@, label.value@),
{
    let i = find(labels, &label.key);
    let ghost before = pairs(labels@);
    if i < labels.len() {
        labels.set(i, label);
        assert(pairs(labels@) =~= before.update(i as int, (label.key@, label.value@)));
    } else {
        labels.push(label);
        assert(pairs(labels@) =~= before.push((label.key@, label.value@)));
    }
}

} // verus!
