//! Bringing a saved settings file up to date: the members of the default
//! settings that the file lacks are added to it, at every depth, and what
//! the file holds is kept.

use vstd::prelude::*;

verus! {

/// A JSON document as the settings merge reads it: objects with their
/// members in order, and any other value kept as its JSON text.
pub enum JsonTree {
    Object(Vec<(Vec<char>, JsonTree)>),
    Value(Vec<char>),
}

/// A JSON document as a mathematical value.
pub enum JsonView {
    Object(Seq<(Seq<char>, JsonView)>),
    Value(Seq<char>),
}

/// The members of an object as plain values.
pub open spec fn object_members(m: Seq<(Vec<char>, JsonTree)>) -> Seq<(Seq<char>, JsonView)> {
    Seq::new(m.len(), |i: int| (m[i].0@, json_view(m[i].1)))
}

/// A document as a plain value.
pub open spec fn json_view(t: JsonTree) -> JsonView
    decreases t,
{
    match t {
        JsonTree::Object(m) => JsonView::Object(
            Seq::new(
                m@.len(),
                |i: int|
                    if 0 <= i < m@.len() {
                        (m@[i].0@, json_view(m@[i].1))
                    } else {
                        (Seq::empty(), JsonView::Value(Seq::empty()))
                    },
            ),
        ),
        JsonTree::Value(v) => JsonView::Value(v@),
    }
}

/// The position of the first member named `key`, or the number of members.
pub open spec fn member_position(m: Seq<(Seq<char>, JsonView)>, key: Seq<char>) -> int
    decreases m.len(),
{
    if m.len() == 0 {
        0
    } else if m[0].0 == key {
        0
    } else {
        1 + member_position(m.drop_first(), key)
    }
}

/// `loaded` with the defaults merged in: when both are objects, each
/// default member that `loaded` lacks is added at the end, and each that
/// it has is merged in turn; otherwise `loaded` as it is.
pub open spec fn merged(defaults: JsonView, loaded: JsonView) -> JsonView
    decreases defaults, 0int,
{
    match defaults {
        JsonView::Object(md) => match loaded {
            JsonView::Object(ml) => JsonView::Object(merge_members(md, md.len() as int, ml)),
            JsonView::Value(_) => loaded,
        },
        JsonView::Value(_) => loaded,
    }
}

/// The members `ml` with the first `n` default members `md` merged in,
/// one after the other.
pub open spec fn merge_members(md: Seq<(Seq<char>, JsonView)>, n: int, ml: Seq<(Seq<char>, JsonView)>) -> Seq<
    (Seq<char>, JsonView),
>
    decreases md, n,
{
    if n <= 0 || n > md.len() {
        ml
    } else {
        let before = merge_members(md, n - 1, ml);
        let (key, value) = md[n - 1];
        let j = member_position(before, key);
        if j < before.len() {
            before.update(j, (key, merged(value, before[j].1)))
        } else {
            before.push((key, value))
        }
    }
}

proof fn lemma_object_view(m: Vec<(Vec<char>, JsonTree)>)
    ensures
        json_view(JsonTree::Object(m)) == JsonView::Object(object_members(m@)),
{
    if let JsonView::Object(v) = json_view(JsonTree::Object(m)) {
        assert(v =~= object_members(m@));
    }
}

proof fn lemma_member_position(m: Seq<(Seq<char>, JsonView)>, key: Seq<char>)
    ensures
        0 <= member_position(m, key) <= m.len(),
        member_position(m, key) < m.len() ==> m[member_position(m, key)].0 == key,
        forall|i: int| 0 <= i < member_position(m, key) ==> #[trigger] m[i].0 != key,
    decreases m.len(),
{
    if m.len() > 0 && m[0].0 != key {
        let rest = m.drop_first();
        lemma_member_position(rest, key);
        assert forall|i: int| 0 <= i < member_position(m, key) implies #[trigger] m[i].0 != key by {
            if i > 0 {
                assert(m[i] == rest[i - 1]);
            }
        }
    }
}

fn chars_equal(a: &Vec<char>, b: &Vec<char>) -> (res: bool)
    ensures
        res == (a@ == b@),
{
    if a.len() != b.len() {
        return false;
    }
    let mut i: usize = 0;
    while i < a.len()
        invariant
            a@.len() == b@.len(),
            i <= a@.len(),
            forall|j: int| 0 <= j < i ==> a@[j] == b@[j],
        decreases a.len() - i,
    {
        if a[i] != b[i] {
            return false;
        }
        i = i + 1;
    }
    assert(a@ =~= b@);
    true
}

fn copy_text(v: &Vec<char>) -> (res: Vec<char>)
    ensures
        res@ == v@,
{
    let mut out: Vec<char> = Vec::new();
    let mut i: usize = 0;
    while i < v.len()
        invariant
            i <= v@.len(),
            out@ == v@.subrange(0, i as int),
        decreases v.len() - i,
    {
        out.push(v[i]);
        assert(out@ =~= v@.subrange(0, i + 1));
        i = i + 1;
    }
    assert(v@.subrange(0, v@.len() as int) =~= v@);
    out
}

/// A copy of a document.
pub fn copy_tree(t: &JsonTree) -> (res: JsonTree)
    ensures
        json_view(res) == json_view(*t),
    decreases t,
{
    match t {
        JsonTree::Value(v) => JsonTree::Value(copy_text(v)),
        JsonTree::Object(m) => {
            let mut out: Vec<(Vec<char>, JsonTree)> = Vec::new();
            let mut i: usize = 0;
            while i < m.len()
                invariant
                    *t == JsonTree::Object(*m),
                    i <= m@.len(),
                    object_members(out@) == object_members(m@).subrange(0, i as int),
                decreases m.len() - i,
            {
                proof {
                    assert(decreases_to!(*t => (*t)->Object_0));
                    assert(decreases_to!(*m => m@));
                    assert(decreases_to!(m@ => m@[i as int]));
                    assert(decreases_to!(m@[i as int] => m@[i as int].1));
                }
                let member = (copy_text(&m[i].0), copy_tree(&m[i].1));
                let ghost before = out@;
                out.push(member);
                assert(object_members(out@) =~= object_members(before).push(
                    (member.0@, json_view(member.1)),
                ));
                i = i + 1;
            }
            proof {
                assert(object_members(m@).subrange(0, m@.len() as int) =~= object_members(m@));
                lemma_object_view(out);
                lemma_object_view(*m);
            }
            JsonTree::Object(out)
        },
    }
}

fn find_member(m: &Vec<(Vec<char>, JsonTree)>, key: &Vec<char>) -> (res: usize)
    ensures
        res as int == member_position(object_members(m@), key@),
{
    let ghost v = object_members(m@);
    proof {
        lemma_member_position(v, key@);
    }
    let mut i: usize = 0;
    while i < m.len()
        invariant
            v == object_members(m@),
            i <= m@.len(),
            forall|k: int| 0 <= k < i ==> #[trigger] v[k].0 != key@,
            0 <= member_position(v, key@) <= v.len(),
            member_position(v, key@) < v.len() ==> v[member_position(v, key@)].0 == key@,
            forall|k: int| 0 <= k < member_position(v, key@) ==> #[trigger] v[k].0 != key@,
        decreases m.len() - i,
    {
        if chars_equal(&m[i].0, key) {
            assert(v[i as int].0 == key@);
            return i;
        }
        assert(v[i as int].0 != key@);
        i = i + 1;
    }
    i
}

/// Merges the default settings into loaded ones (see `merged`).
pub fn merge_settings(defaults: &JsonTree, loaded: JsonTree) -> (res: JsonTree)
    ensures
        json_view(res) == merged(json_view(*defaults), json_view(loaded)),
    decreases defaults,
{
    match defaults {
        JsonTree::Value(_) => loaded,
        JsonTree::Object(md) => match loaded {
            JsonTree::Value(v) => JsonTree::Value(v),
            JsonTree::Object(ml0) => {
                let ghost dv = object_members(md@);
                let ghost lv = object_members(ml0@);
                proof {
                    lemma_object_view(*md);
                    lemma_object_view(ml0);
                }
                let mut ml = ml0;
                let mut n: usize = 0;
                while n < md.len()
                    invariant
                        *defaults == JsonTree::Object(*md),
                        n <= md@.len(),
                        dv == object_members(md@),
                        object_members(ml@) == merge_members(dv, n as int, lv),
                    decreases md.len() - n,
                {
                    let ghost before = object_members(ml@);
                    let key = &md[n].0;
                    let value = &md[n].1;
                    let j = find_member(&ml, key);
                    proof {
                        lemma_member_position(before, key@);
                    }
                    if j < ml.len() {
                        proof {
                            assert(decreases_to!(*defaults => (*defaults)->Object_0));
                            assert(decreases_to!(*md => md@));
                            assert(decreases_to!(md@ => md@[n as int]));
                            assert(decreases_to!(md@[n as int] => md@[n as int].1));
                        }
                        let (k, old_v) = ml.remove(j);
                        let new_v = merge_settings(value, old_v);
                        ml.insert(j, (k, new_v));
                        assert(object_members(ml@) =~= before.update(
                            j as int,
                            (key@, merged(dv[n as int].1, before[j as int].1)),
                        ));
                    } else {
                        let member = (copy_text(key), copy_tree(value));
                        ml.push(member);
                        assert(object_members(ml@) =~= before.push((key@, dv[n as int].1)));
                    }
                    n = n + 1;
                }
                proof {
                    lemma_object_view(ml);
                }
                JsonTree::Object(ml)
            },
        },
    }
}

proof fn lemma_merge_members(md: Seq<(Seq<char>, JsonView)>, n: int, ml: Seq<(Seq<char>, JsonView)>)
    requires
        0 <= n <= md.len(),
    ensures
        merge_members(md, n, ml).len() >= ml.len(),
        forall|j: int| 0 <= j < ml.len() ==> #[trigger] merge_members(md, n, ml)[j].0 == ml[j].0,
        forall|j: int|
            0 <= j < ml.len() && ml[j].1 is Value ==> #[trigger] merge_members(md, n, ml)[j].1
                == ml[j].1,
        forall|k: int|
            0 <= k < n ==> exists|i: int|
                0 <= i < merge_members(md, n, ml).len() && #[trigger] merge_members(md, n, ml)[i].0
                    == #[trigger] md[k].0,
    decreases n,
{
    if n > 0 {
        lemma_merge_members(md, n - 1, ml);
        let before = merge_members(md, n - 1, ml);
        let (key, value) = md[n - 1];
        lemma_member_position(before, key);
        let j = member_position(before, key);
        let after = merge_members(md, n, ml);
        if j < before.len() && j < ml.len() && ml[j].1 is Value {
            assert(before[j].1 == ml[j].1);
            assert(merged(value, before[j].1) == before[j].1);
        }
        assert forall|k: int| 0 <= k < n implies exists|i: int|
            0 <= i < after.len() && #[trigger] after[i].0 == #[trigger] md[k].0 by {
            if k == n - 1 {
                if j < before.len() {
                    assert(after[j].0 == md[k].0);
                } else {
                    assert(after[before.len() as int].0 == md[k].0);
                }
            } else {
                let i = choose|i: int| 0 <= i < before.len() && before[i].0 == md[k].0;
                assert(after[i].0 == md[k].0);
            }
        }
    }
}

/// Merging the defaults into loaded settings keeps what was loaded and
/// fills in what is missing: a plain value is kept as it is; of two
/// objects, every loaded member stays in its place under its name, a plain
/// value among them unchanged, and every default member is there after.
pub proof fn lemma_merge_keeps_and_fills(defaults: JsonView, loaded: JsonView)
    ensures
        (defaults is Value || loaded is Value) ==> merged(defaults, loaded) == loaded,
        defaults matches JsonView::Object(md) ==> (loaded matches JsonView::Object(ml) ==> {
            &&& merged(defaults, loaded) is Object
            &&& merged(defaults, loaded)->Object_0.len() >= ml.len()
            &&& forall|j: int| 0 <= j < ml.len() ==> #[trigger] merged(defaults, loaded)->Object_0[j].0 == ml[j].0
            &&& forall|j: int|
                0 <= j < ml.len() && ml[j].1 is Value ==> #[trigger] merged(defaults, loaded)->Object_0[j].1
                    == ml[j].1
            &&& forall|k: int|
                0 <= k < md.len() ==> exists|i: int|
                    0 <= i < merged(defaults, loaded)->Object_0.len() && #[trigger] merged(
                        defaults,
                        loaded,
                    )->Object_0[i].0 == #[trigger] md[k].0
        }),
{
    if let JsonView::Object(md) = defaults {
        if let JsonView::Object(ml) = loaded {
            lemma_merge_members(md, md.len() as int, ml);
        }
    }
}

} // verus!
