use vstd::prelude::*;

verus! {

/// An untyped document node, as a structured-document parser produces it.
/// Numbers are held in their textual form; mapping keys are strings and
/// keep their order of insertion.
#[derive(Debug, PartialEq)]
pub enum Value {
    Null,
    Bool(bool),
    Number(String),
    Str(String),
    Mapping(Vec<(String, Value)>),
    Sequence(Vec<Value>),
}

/// The mathematical model of a [`Value`].
pub enum Tree {
    Null,
    Bool(bool),
    Number(Seq<char>),
    Str(Seq<char>),
    Mapping(Seq<(Seq<char>, Tree)>),
    Sequence(Seq<Tree>),
}

impl View for Value {
    type V = Tree;

    open spec fn view(&self) -> Tree
        decreases self,
    {
        match self {
            Value::Null => Tree::Null,
            Value::Bool(b) => Tree::Bool(*b),
            Value::Number(n) => Tree::Number(n@),
            Value::Str(s) => Tree::Str(s@),
            Value::Mapping(m) => Tree::Mapping(entries_view(m@)),
            Value::Sequence(s) => Tree::Sequence(items_view(s@)),
        }
    }
}

broadcast use {vstd::seq::axiom_seq_index_decreases, vstd::std_specs::vec::axiom_vec_decreases_to_view};

/// The entries of a mapping, as the model sees them.
pub open spec fn entries_view(m: Seq<(String, Value)>) -> Seq<(Seq<char>, Tree)>
    decreases m,
{
    Seq::new(
        m.len(),
        |i: int|
            if 0 <= i < m.len() {
                (m[i].0@, m[i].1.view())
            } else {
                (Seq::empty(), Tree::Null)
            },
    )
}

/// The model of a sequence's items.
pub open spec fn items_view(s: Seq<Value>) -> Seq<Tree>
    decreases s,
{
    Seq::new(
        s.len(),
        |i: int|
            if 0 <= i < s.len() {
                s[i].view()
            } else {
                Tree::Null
            },
    )
}

/// The first position at or after `j` whose key is `k`.
pub open spec fn find_key_from(d: Seq<(Seq<char>, Tree)>, k: Seq<char>, j: int) -> Option<int>
    decreases d.len() - j,
{
    if j < 0 || j >= d.len() {
        None
    } else if d[j].0 == k {
        Some(j)
    } else {
        find_key_from(d, k, j + 1)
    }
}

/// The first position in `d` whose key is `k`.
pub open spec fn find_key(d: Seq<(Seq<char>, Tree)>, k: Seq<char>) -> Option<int> {
    find_key_from(d, k, 0)
}

/// The value under key `k`, where the key first stands.
pub open spec fn lookup(e: Seq<(Seq<char>, Tree)>, k: Seq<char>) -> Option<Tree> {
    match find_key(e, k) {
        Some(j) => Some(e[j].1),
        None => None,
    }
}

/// No key stands twice.
pub open spec fn keys_unique(e: Seq<(Seq<char>, Tree)>) -> bool {
    forall|i: int, j: int| 0 <= i < j < e.len() ==> e[i].0 != e[j].0
}

/// What a merged mapping holds under a key, from what the override and the
/// base hold there.
pub open spec fn merged_lookup(over: Option<Tree>, base: Option<Tree>) -> Option<Tree> {
    match over {
        Some(a) => match base {
            Some(b) => Some(merge_tree(a, b)),
            None => Some(a),
        },
        None => base,
    }
}

/// The value under key `k` in `s`, where the key stands at `i` or later.
pub open spec fn lookup_after(s: Seq<(Seq<char>, Tree)>, k: Seq<char>, i: int) -> Option<Tree> {
    match find_key(s, k) {
        Some(x) => if x >= i {
            Some(s[x].1)
        } else {
            None
        },
        None => None,
    }
}

/// Override `src` merged onto base `dst`: mappings are merged key by key,
/// sequences are concatenated (base items first), anything else is
/// replaced by the override.
pub open spec fn merge_tree(src: Tree, dst: Tree) -> Tree
    decreases src, 0nat,
{
    match src {
        Tree::Mapping(s) => match dst {
            Tree::Mapping(d) => Tree::Mapping(merge_entries(s, d, 0)),
            _ => src,
        },
        Tree::Sequence(s) => match dst {
            Tree::Sequence(d) => Tree::Sequence(d + s),
            _ => src,
        },
        _ => src,
    }
}

/// The entries of base `d` after the override entries `s[i..]` were merged
/// onto it in order: a key that `d` has is merged in place, a new key is
/// appended.
pub open spec fn merge_entries(
    s: Seq<(Seq<char>, Tree)>,
    d: Seq<(Seq<char>, Tree)>,
    i: int,
) -> Seq<(Seq<char>, Tree)>
    decreases s, s.len() - i,
{
    if i < 0 || i >= s.len() {
        d
    } else {
        let next = match find_key(d, s[i].0) {
            Some(j) => d.update(j, (s[i].0, merge_tree(s[i].1, d[j].1))),
            None => d.push(s[i]),
        };
        merge_entries(s, next, i + 1)
    }
}

proof fn lemma_find_key_from_bounds(d: Seq<(Seq<char>, Tree)>, k: Seq<char>, j: int)
    requires
        0 <= j,
    ensures
        find_key_from(d, k, j) matches Some(x) ==> j <= x < d.len() && d[x].0 == k,
        find_key_from(d, k, j) is None ==> forall|x: int| j <= x < d.len() ==> d[x].0 != k,
    decreases d.len() - j,
{
    if 0 <= j < d.len() && d[j].0 != k {
        lemma_find_key_from_bounds(d, k, j + 1);
    }
}

proof fn lemma_find_key_unique(d: Seq<(Seq<char>, Tree)>, k: Seq<char>, j: int)
    requires
        keys_unique(d),
        0 <= j < d.len(),
        d[j].0 == k,
    ensures
        find_key(d, k) == Some(j),
{
    lemma_find_key_from_bounds(d, k, 0);
}

proof fn lemma_find_key_same_keys(
    d1: Seq<(Seq<char>, Tree)>,
    d2: Seq<(Seq<char>, Tree)>,
    k: Seq<char>,
    j: int,
)
    requires
        d1.len() == d2.len(),
        forall|x: int| 0 <= x < d1.len() ==> d1[x].0 == d2[x].0,
    ensures
        find_key_from(d1, k, j) == find_key_from(d2, k, j),
    decreases d1.len() - j,
{
    if 0 <= j < d1.len() {
        lemma_find_key_same_keys(d1, d2, k, j + 1);
    }
}

proof fn lemma_find_key_push(d: Seq<(Seq<char>, Tree)>, e: (Seq<char>, Tree), k: Seq<char>, j: int)
    requires
        e.0 != k,
    ensures
        find_key_from(d.push(e), k, j) == find_key_from(d, k, j),
    decreases d.len() + 1 - j,
{
    if 0 <= j < d.len() + 1 {
        lemma_find_key_push(d, e, k, j + 1);
    }
}

proof fn lemma_merge_entries(s: Seq<(Seq<char>, Tree)>, d: Seq<(Seq<char>, Tree)>, i: int)
    requires
        keys_unique(s),
        keys_unique(d),
        0 <= i <= s.len(),
    ensures
        keys_unique(merge_entries(s, d, i)),
        merge_entries(s, d, i).len() >= d.len(),
        forall|j: int| 0 <= j < d.len() ==> #[trigger] merge_entries(s, d, i)[j].0 == d[j].0,
        forall|k: Seq<char>|
            lookup(merge_entries(s, d, i), k) == merged_lookup(
                #[trigger] lookup_after(s, k, i),
                lookup(d, k),
            ),
    decreases s.len() - i,
{
    if i < s.len() {
        let k0 = s[i].0;
        let v0 = s[i].1;
        lemma_find_key_unique(s, k0, i);
        lemma_find_key_from_bounds(d, k0, 0);
        let next = match find_key(d, k0) {
            Some(j) => d.update(j, (k0, merge_tree(v0, d[j].1))),
            None => d.push(s[i]),
        };
        match find_key(d, k0) {
            Some(j) => {
                assert(keys_unique(next));
                lemma_find_key_unique(next, k0, j);
                assert forall|k: Seq<char>| k != k0 implies lookup(next, k) == lookup(d, k) by {
                    lemma_find_key_same_keys(next, d, k, 0);
                    lemma_find_key_from_bounds(d, k, 0);
                }
            },
            None => {
                assert(keys_unique(next));
                lemma_find_key_unique(next, k0, d.len() as int);
                assert forall|k: Seq<char>| k != k0 implies lookup(next, k) == lookup(d, k) by {
                    lemma_find_key_push(d, s[i], k, 0);
                    lemma_find_key_from_bounds(d, k, 0);
                }
            },
        }
        assert(merge_entries(s, d, i) == merge_entries(s, next, i + 1));
        lemma_merge_entries(s, next, i + 1);
        assert forall|k: Seq<char>|
            lookup(merge_entries(s, d, i), k) == merged_lookup(
                #[trigger] lookup_after(s, k, i),
                lookup(d, k),
            ) by {
            assert(lookup(merge_entries(s, next, i + 1), k) == merged_lookup(
                lookup_after(s, k, i + 1),
                lookup(next, k),
            ));
            lemma_find_key_from_bounds(s, k, 0);
        }
    } else {
        assert forall|k: Seq<char>| #[trigger] lookup_after(s, k, i) is None by {
            lemma_find_key_from_bounds(s, k, 0);
        }
    }
}

/// Merging an override mapping onto a base mapping, each without repeated
/// keys: the result has no repeated key, every key of the base keeps its
/// place, a key stands in the result exactly when it stands in the override
/// or in the base, and the result holds under it the override's value merged
/// onto the base's value; the override's value alone where the base lacks the
/// key, and the base's value where the override lacks it.
pub proof fn lemma_merge_mappings(s: Seq<(Seq<char>, Tree)>, d: Seq<(Seq<char>, Tree)>)
    requires
        keys_unique(s),
        keys_unique(d),
    ensures
        merge_tree(Tree::Mapping(s), Tree::Mapping(d)) matches Tree::Mapping(r) && {
            &&& keys_unique(r)
            &&& r.len() >= d.len()
            &&& forall|j: int| 0 <= j < d.len() ==> #[trigger] r[j].0 == d[j].0
            &&& forall|k: Seq<char>|
                #[trigger] lookup(r, k) == merged_lookup(lookup(s, k), lookup(d, k))
            &&& forall|k: Seq<char>|
                (#[trigger] lookup(r, k) is Some) <==> (lookup(s, k) is Some || lookup(d, k) is Some)
        },
{
    lemma_merge_entries(s, d, 0);
    let r = merge_entries(s, d, 0);
    assert forall|k: Seq<char>| #[trigger]
        lookup(r, k) == merged_lookup(lookup(s, k), lookup(d, k)) by {
        lemma_find_key_from_bounds(s, k, 0);
        assert(lookup_after(s, k, 0) == lookup(s, k));
    }
}

/// Merging an override sequence onto a base sequence appends the override's
/// items, in order, after the base's; nothing is merged or removed.
pub proof fn lemma_merge_sequences(s: Seq<Tree>, d: Seq<Tree>)
    ensures
        merge_tree(Tree::Sequence(s), Tree::Sequence(d)) == Tree::Sequence(d + s),
        (d + s).len() == d.len() + s.len(),
        forall|i: int| 0 <= i < d.len() ==> #[trigger] (d + s)[i] == d[i],
        forall|i: int| 0 <= i < s.len() ==> #[trigger] (d + s)[d.len() + i] == s[i],
{
}

/// Unless both are mappings or both are sequences, the override replaces the
/// base whole.
pub proof fn lemma_merge_replaces(src: Tree, dst: Tree)
    requires
        !(src is Mapping && dst is Mapping),
        !(src is Sequence && dst is Sequence),
    ensures
        merge_tree(src, dst) == src,
{
}

/// The first position of key `k` in the entries `d`.
pub(crate) fn find_entry(d: &Vec<(String, Value)>, k: &String) -> (r: Option<usize>)
    ensures
        r matches Some(j) ==> j < d@.len() && find_key(entries_view(d@), k@) == Some(j as int),
        r is None ==> find_key(entries_view(d@), k@) is None,
{
    let ghost e = entries_view(d@);
    let mut j: usize = 0;
    while j < d.len()
        invariant
            0 <= j <= d.len(),
            e == entries_view(d@),
            find_key(e, k@) == find_key_from(e, k@, j as int),
        decreases d.len() - j,
    {
        if d[j].0 == *k {
            return Some(j);
        }
        j = j + 1;
    }
    None
}

/// Merges override `src` onto base `dst` and returns the result: mappings
/// are merged key by key (keys of the base keep their place, new keys are
/// appended), sequences are concatenated, and anything else is replaced
/// by the override.
#[verifier::loop_isolation(false)]
pub fn merge(src: Value, dst: Value) -> (r: Value)
    ensures
        r@ == merge_tree(src@, dst@),
    decreases src@,
{
    let ghost src_v = src@;
    match src {
        Value::Mapping(s) => match dst {
            Value::Mapping(d) => {
                let ghost se = entries_view(s@);
                let ghost d0 = entries_view(d@);
                let mut s = s;
                let mut d = d;
                let mut i: usize = 0;
                let n = s.len();
                while s.len() > 0
                    invariant
                        n == se.len(),
                        i + s@.len() == n,
                        entries_view(s@) == se.skip(i as int),
                        merge_entries(se, d0, 0)
                            == merge_entries(se, entries_view(d@), i as int),
                        src_v == Tree::Mapping(se),
                    decreases s.len(),
                {
                    let ghost before = s@;
                    let (k, v) = s.remove(0);
                    assert(se.skip(i as int)[0] == entries_view(before)[0]);
                    assert(se[i as int] == (k@, v@));
                    proof {
                        assert(decreases_to!(src_v => src_v->Mapping_0));
                        assert(decreases_to!(se => se[i as int]));
                        assert(decreases_to!(se[i as int] => se[i as int].1));
                        assert(decreases_to!(src_v => v@));
                    }
                    assert(forall|x: int| 0 <= x < s@.len() ==> s@[x] == before[x + 1]);
                    let found = find_entry(&d, &k);
                    let ghost de = entries_view(d@);
                    match found {
                        Some(j) => {
                            proof {
                                lemma_find_key_from_bounds(de, k@, 0);
                            }
                            let (k0, old_v) = d.remove(j);
                            assert(decreases_to!(src_v => v@));
                            let nv = merge(v, old_v);
                            d.insert(j, (k0, nv));
                            assert(entries_view(d@) =~= de.update(
                                j as int,
                                (k@, merge_tree(v@, de[j as int].1)),
                            ));
                        },
                        None => {
                            d.push((k, v));
                            assert(entries_view(d@) =~= de.push((k@, v@)));
                        },
                    }
                    assert forall|x: int| 0 <= x < s@.len() implies entries_view(s@)[x] == se.skip(
                        i + 1,
                    )[x] by {
                        assert(entries_view(before)[x + 1] == se.skip(i as int)[x + 1]);
                    }
                    assert(entries_view(s@) =~= se.skip(i + 1));
                    i = i + 1;
                }
                Value::Mapping(d)
            },
            _ => Value::Mapping(s),
        },
        Value::Sequence(s) => match dst {
            Value::Sequence(d) => {
                let ghost sv = items_view(s@);
                let ghost dv = items_view(d@);
                let mut s = s;
                let mut d = d;
                d.append(&mut s);
                assert(items_view(d@) =~= dv + sv);
                Value::Sequence(d)
            },
            _ => Value::Sequence(s),
        },
        _ => src,
    }
}

} // verus!
