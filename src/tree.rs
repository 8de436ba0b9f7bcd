//! A structured document (the shape that YAML and JSON text share) and the
//! key-merging operations that the schema builder performs on it.

use vstd::prelude::*;

verus! {

/// A document tree: scalars, sequences, and mappings from keys to subtrees.
#[derive(Debug, PartialEq)]
pub enum Tree {
    Null,
    Bool(bool),
    Number(serde_json::Number),
    Text(String),
    List(Vec<Tree>),
    Mapping(Vec<(String, Tree)>),
}

/// What a tree holds, with strings as character sequences and lists and
/// mappings as sequences.
pub enum TreeView {
    Null,
    Bool(bool),
    Number(serde_json::Number),
    Text(Seq<char>),
    List(Seq<TreeView>),
    Mapping(Seq<(Seq<char>, TreeView)>),
}

impl View for Tree {
    type V = TreeView;

    open spec fn view(&self) -> TreeView {
        tree_view(*self)
    }
}

/// The view of `t`.
pub open spec fn tree_view(t: Tree) -> TreeView
    decreases t,
{
    match t {
        Tree::Null => TreeView::Null,
        Tree::Bool(b) => TreeView::Bool(b),
        Tree::Number(n) => TreeView::Number(n),
        Tree::Text(s) => TreeView::Text(s@),
        Tree::List(xs) => TreeView::List(list_view(xs@)),
        Tree::Mapping(es) => TreeView::Mapping(entries_view(es@)),
    }
}

/// The views of the trees in `xs`.
pub open spec fn list_view(xs: Seq<Tree>) -> Seq<TreeView>
    decreases xs,
{
    if xs.len() == 0 {
        Seq::empty()
    } else {
        list_view(xs.subrange(0, xs.len() - 1)).push(tree_view(xs[xs.len() - 1]))
    }
}

/// The entries of a mapping, viewed.
pub open spec fn entries_view(entries: Seq<(String, Tree)>) -> Seq<(Seq<char>, TreeView)>
    decreases entries,
{
    if entries.len() == 0 {
        Seq::empty()
    } else {
        entries_view(entries.subrange(0, entries.len() - 1)).push(
            (entries[entries.len() - 1].0@, tree_view(entries[entries.len() - 1].1)),
        )
    }
}

/// The position of the last binding of `key` in `entries`, or -1.
pub open spec fn last_key(entries: Seq<(Seq<char>, TreeView)>, key: Seq<char>) -> int
    decreases entries.len(),
{
    if entries.len() == 0 {
        -1
    } else if entries.last().0 == key {
        entries.len() - 1
    } else {
        last_key(entries.drop_last(), key)
    }
}

/// `entries` with `key` bound to `value`: the last binding of `key` is
/// replaced in place, or the binding is appended where there is none.
pub open spec fn set_view(
    entries: Seq<(Seq<char>, TreeView)>,
    key: Seq<char>,
    value: TreeView,
) -> Seq<(Seq<char>, TreeView)> {
    let j = last_key(entries, key);
    if j < 0 {
        entries.push((key, value))
    } else {
        entries.update(j, (key, value))
    }
}

/// `base` with each binding of `extra` set in turn.
pub open spec fn merged_view(
    base: Seq<(Seq<char>, TreeView)>,
    extra: Seq<(Seq<char>, TreeView)>,
) -> Seq<(Seq<char>, TreeView)>
    decreases extra.len(),
{
    if extra.len() == 0 {
        base
    } else {
        set_view(merged_view(base, extra.drop_last()), extra.last().0, extra.last().1)
    }
}

/// The view of a mapping's entries holds, position for position, each key
/// and the view of its value.
pub proof fn lemma_entries_view(entries: Seq<(String, Tree)>)
    ensures
        entries_view(entries).len() == entries.len(),
        forall|i: int|
            0 <= i < entries.len() ==> #[trigger] entries_view(entries)[i] == (
                entries[i].0@,
                entries[i].1@,
            ),
    decreases entries.len(),
{
    if entries.len() > 0 {
        let front = entries.subrange(0, entries.len() - 1);
        lemma_entries_view(front);
        assert forall|i: int| 0 <= i < entries.len() implies #[trigger] entries_view(entries)[i]
            == (entries[i].0@, entries[i].1@) by {
            if i < entries.len() - 1 {
                assert(front[i] == entries[i]);
            }
        }
    }
}

proof fn lemma_entries_view_update(entries: Seq<(String, Tree)>, j: int, e: (String, Tree))
    requires
        0 <= j < entries.len(),
    ensures
        entries_view(entries.update(j, e)) == entries_view(entries).update(j, (e.0@, e.1@)),
{
    lemma_entries_view(entries);
    lemma_entries_view(entries.update(j, e));
    assert(entries_view(entries.update(j, e)) =~= entries_view(entries).update(j, (e.0@, e.1@)));
}

proof fn lemma_entries_view_push(entries: Seq<(String, Tree)>, e: (String, Tree))
    ensures
        entries_view(entries.push(e)) == entries_view(entries).push((e.0@, e.1@)),
{
    lemma_entries_view(entries);
    lemma_entries_view(entries.push(e));
    assert(entries_view(entries.push(e)) =~= entries_view(entries).push((e.0@, e.1@)));
}

proof fn lemma_last_key(entries: Seq<(Seq<char>, TreeView)>, key: Seq<char>, j: int)
    requires
        -1 <= j < entries.len(),
        j >= 0 ==> entries[j].0 == key,
        forall|i: int| j < i < entries.len() ==> entries[i].0 != key,
    ensures
        last_key(entries, key) == j,
    decreases entries.len(),
{
    if entries.len() > 0 && j < entries.len() - 1 {
        lemma_last_key(entries.drop_last(), key, j);
    }
}

/// The value of the last binding of `key` in `entries`, if any.
pub open spec fn binding(entries: Seq<(Seq<char>, TreeView)>, key: Seq<char>) -> Option<TreeView> {
    let j = last_key(entries, key);
    if j >= 0 {
        Some(entries[j].1)
    } else {
        None
    }
}

pub(crate) proof fn lemma_last_key_in_range(entries: Seq<(Seq<char>, TreeView)>, key: Seq<char>)
    ensures
        -1 <= last_key(entries, key) < entries.len(),
        last_key(entries, key) >= 0 ==> entries[last_key(entries, key)].0 == key,
        forall|i: int| last_key(entries, key) < i < entries.len() ==> entries[i].0 != key,
    decreases entries.len(),
{
    if entries.len() > 0 {
        let front = entries.drop_last();
        lemma_last_key_in_range(front, key);
        assert forall|i: int| last_key(entries, key) < i < entries.len() implies entries[i].0
            != key by {
            if i < entries.len() - 1 {
                assert(entries[i] == front[i]);
            }
        }
        if last_key(entries, key) >= 0 && last_key(entries, key) < entries.len() - 1 {
            assert(entries[last_key(entries, key)] == front[last_key(entries, key)]);
        }
    }
}

proof fn lemma_binding_set(
    entries: Seq<(Seq<char>, TreeView)>,
    k: Seq<char>,
    v: TreeView,
    key: Seq<char>,
)
    ensures
        binding(set_view(entries, k, v), key) == if key == k {
            Some(v)
        } else {
            binding(entries, key)
        },
{
    let j = last_key(entries, k);
    let s = set_view(entries, k, v);
    lemma_last_key_in_range(entries, k);
    lemma_last_key_in_range(entries, key);
    let m = last_key(entries, key);
    if j < 0 {
        assert(s.drop_last() =~= entries);
        if key != k {
            assert(last_key(s, key) == m);
            if m >= 0 {
                assert(s[m] == entries[m]);
            }
        }
    } else {
        lemma_last_key(s, key, if key == k { j } else { m });
        if key != k && m >= 0 {
            assert(m != j);
        }
    }
}

/// Setting the bindings of `extra` over `base` leaves on each key the value
/// that `extra` binds it to, and else the value that `base` binds it to.
pub proof fn lemma_merged_binding(
    base: Seq<(Seq<char>, TreeView)>,
    extra: Seq<(Seq<char>, TreeView)>,
    key: Seq<char>,
)
    ensures
        binding(merged_view(base, extra), key) == match binding(extra, key) {
            Some(v) => Some(v),
            None => binding(base, key),
        },
    decreases extra.len(),
{
    if extra.len() > 0 {
        let front = extra.drop_last();
        lemma_merged_binding(base, front, key);
        lemma_binding_set(merged_view(base, front), extra.last().0, extra.last().1, key);
        lemma_last_key_in_range(front, key);
        let m = last_key(front, key);
        if m >= 0 {
            assert(extra[m] == front[m]);
        }
    }
}

/// The value bound to `key` in `entries`. Should a key occur twice, the later
/// binding hides the earlier one, as when the entries are inserted in order.
pub open spec fn field(entries: Seq<(String, Tree)>, key: Seq<char>) -> Option<Tree>
    decreases entries.len(),
{
    if entries.len() == 0 {
        None
    } else if entries.last().0@ == key {
        Some(entries.last().1)
    } else {
        field(entries.drop_last(), key)
    }
}

/// The value bound to `key` once every binding of `extra` is written over `base`:
/// a key present in both takes its value from `extra`.
pub open spec fn merged_field(
    base: Seq<(String, Tree)>,
    extra: Seq<(String, Tree)>,
    key: Seq<char>,
) -> Option<Tree> {
    match field(extra, key) {
        Some(v) => Some(v),
        None => field(base, key),
    }
}

proof fn lemma_field_push(entries: Seq<(String, Tree)>, e: (String, Tree))
    ensures
        forall|k: Seq<char>| #[trigger]
            field(entries.push(e), k) == if k == e.0@ {
                Some(e.1)
            } else {
                field(entries, k)
            },
{
    assert(entries.push(e).drop_last() =~= entries);
}

pub(crate) proof fn lemma_field_update(entries: Seq<(String, Tree)>, j: int, e: (String, Tree))
    requires
        0 <= j < entries.len(),
        entries[j].0@ == e.0@,
        forall|i: int| j < i < entries.len() ==> entries[i].0@ != e.0@,
    ensures
        forall|k: Seq<char>| #[trigger]
            field(entries.update(j, e), k) == if k == e.0@ {
                Some(e.1)
            } else {
                field(entries, k)
            },
    decreases entries.len(),
{
    let u = entries.update(j, e);
    let rest = entries.drop_last();
    if j < entries.len() - 1 {
        lemma_field_update(rest, j, e);
        assert(u.drop_last() =~= rest.update(j, e));
    } else {
        assert(u.drop_last() =~= rest);
    }
    assert forall|k: Seq<char>| #[trigger]
        field(u, k) == if k == e.0@ {
            Some(e.1)
        } else {
            field(entries, k)
        } by {
        if j < entries.len() - 1 {
            assert(u.last() == entries.last());
            assert(entries.last().0@ != e.0@);
            if entries.last().0@ != k {
                assert(field(u, k) == field(rest.update(j, e), k));
            }
        }
    }
}

/// The position of the last binding of `key` in `entries`, if there is one.
pub(crate) fn last_index(entries: &Vec<(String, Tree)>, key: &String) -> (r: Option<usize>)
    ensures
        match r {
            Some(j) => {
                &&& j < entries@.len()
                &&& entries@[j as int].0@ == key@
                &&& forall|i: int| j < i < entries@.len() ==> entries@[i].0@ != key@
            },
            None => forall|i: int| 0 <= i < entries@.len() ==> entries@[i].0@ != key@,
        },
        last_key(entries_view(entries@), key@) == match r {
            Some(j) => j as int,
            None => -1,
        },
{
    let mut i: usize = entries.len();
    while i > 0
        invariant
            i <= entries@.len(),
            forall|m: int| i <= m < entries@.len() ==> entries@[m].0@ != key@,
        decreases i,
    {
        i = i - 1;
        if entries[i].0 == *key {
            proof {
                lemma_entries_view(entries@);
                lemma_last_key(entries_view(entries@), key@, i as int);
            }
            return Some(i);
        }
    }
    proof {
        lemma_entries_view(entries@);
        lemma_last_key(entries_view(entries@), key@, -1);
    }
    None
}

/// Binds `key` to `value`, replacing the value that `key` had, if any.
pub fn set_field(entries: &mut Vec<(String, Tree)>, key: String, value: Tree)
    ensures
        forall|k: Seq<char>| #[trigger]
            field(final(entries)@, k) == if k == key@ {
                Some(value)
            } else {
                field(old(entries)@, k)
            },
        entries_view(final(entries)@) == set_view(entries_view(old(entries)@), key@, value@),
{
    let ghost before = entries@;
    let ghost e = (key, value);
    match last_index(entries, &key) {
        Some(j) => {
            entries.remove(j);
            entries.insert(j, (key, value));
            proof {
                assert(entries@ =~= before.update(j as int, e));
                lemma_field_update(before, j as int, e);
                lemma_entries_view_update(before, j as int, e);
            }
        },
        None => {
            entries.push((key, value));
            proof {
                lemma_field_push(before, e);
                lemma_entries_view_push(before, e);
            }
        },
    }
}

/// Writes every binding of `extra` into `entries`, in order; on a key that both
/// hold, the binding from `extra` wins.
pub fn merge_fields(entries: &mut Vec<(String, Tree)>, extra: Vec<(String, Tree)>)
    ensures
        forall|k: Seq<char>| #[trigger]
            field(final(entries)@, k) == merged_field(old(entries)@, extra@, k),
        entries_view(final(entries)@) == merged_view(entries_view(old(entries)@), entries_view(extra@)),
{
    let ghost base = entries@;
    let ghost all = extra@;
    let ghost mut done: int = 0;
    let mut rest = extra;
    while rest.len() > 0
        invariant
            0 <= done <= all.len(),
            rest@ == all.subrange(done, all.len() as int),
            forall|k: Seq<char>| #[trigger]
                field(entries@, k) == merged_field(base, all.subrange(0, done), k),
            entries_view(entries@) == merged_view(
                entries_view(base),
                entries_view(all.subrange(0, done)),
            ),
        decreases rest@.len(),
    {
        let (key, value) = rest.remove(0);
        proof {
            assert(all[done] == (key, value));
        }
        set_field(entries, key, value);
        proof {
            assert(all.subrange(0, done + 1) =~= all.subrange(0, done).push(all[done]));
            lemma_field_push(all.subrange(0, done), all[done]);
            lemma_entries_view_push(all.subrange(0, done), all[done]);
            let next = entries_view(all.subrange(0, done + 1));
            assert(next.drop_last() =~= entries_view(all.subrange(0, done)));
            assert(next.last() == (all[done].0@, all[done].1@));
            done = done + 1;
            assert(rest@ =~= all.subrange(done, all.len() as int));
        }
    }
    proof {
        assert(all.subrange(0, done) =~= all);
    }
}

} // verus!
