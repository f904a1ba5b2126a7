use vstd::prelude::*;

use crate::secrets::{pairs_view, replaced_all, template_replacements};
use crate::tree::{entries_view, items_view, Tree, Value};

verus! {

broadcast use {vstd::seq::axiom_seq_index_decreases, vstd::std_specs::vec::axiom_vec_decreases_to_view};

/// `t` with the replacements `rs` applied to every string value; keys and
/// other scalars stay as they are.
pub open spec fn muted(t: Tree, rs: Seq<(Seq<char>, Seq<char>)>) -> Tree
    decreases t,
{
    match t {
        Tree::Str(s) => Tree::Str(replaced_all(s, rs, rs.len() as int)),
        Tree::Mapping(e) => Tree::Mapping(
            Seq::new(
                e.len(),
                |i: int|
                    if 0 <= i < e.len() {
                        (e[i].0, muted(e[i].1, rs))
                    } else {
                        (Seq::empty(), Tree::Null)
                    },
            ),
        ),
        Tree::Sequence(items) => Tree::Sequence(
            Seq::new(
                items.len(),
                |i: int|
                    if 0 <= i < items.len() {
                        muted(items[i], rs)
                    } else {
                        Tree::Null
                    },
            ),
        ),
        _ => t,
    }
}

/// Applies the replacements, in order, to every string value of the tree,
/// whatever its shape; mapping keys are left alone.
#[verifier::loop_isolation(false)]
pub fn mute_values(values: Value, replacements: &Vec<(String, String)>) -> (r: Value)
    ensures
        r@ == muted(values@, pairs_view(replacements@)),
    decreases values@,
{
    let ghost rs = pairs_view(replacements@);
    let ghost tv = values@;
    match values {
        Value::Str(s) => Value::Str(template_replacements(s, replacements)),
        Value::Mapping(m) => {
            let ghost me = entries_view(m@);
            let n = m.len();
            let mut m = m;
            let mut out: Vec<(String, Value)> = Vec::new();
            let mut i: usize = 0;
            while m.len() > 0
                invariant
                    i + m@.len() == n == me.len(),
                    entries_view(m@) == me.skip(i as int),
                    out@.len() == i,
                    forall|j: int|
                        0 <= j < i ==> #[trigger] entries_view(out@)[j] == (
                            me[j].0,
                            muted(me[j].1, rs),
                        ),
                decreases m.len(),
            {
                let ghost before = m@;
                let ghost ob = out@;
                let (k, v) = m.remove(0);
                assert(me.skip(i as int)[0] == entries_view(before)[0]);
                assert(me[i as int] == (k@, v@));
                proof {
                    assert(decreases_to!(tv => tv->Mapping_0));
                    assert(decreases_to!(me => me[i as int]));
                    assert(decreases_to!(me[i as int] => me[i as int].1));
                    assert(decreases_to!(tv => v@));
                }
                let mv = mute_values(v, replacements);
                out.push((k, mv));
                assert forall|j: int| 0 <= j <= i implies #[trigger] entries_view(out@)[j] == (
                    me[j].0,
                    muted(me[j].1, rs),
                ) by {
                    if j < i {
                        assert(out@[j] == ob[j]);
                        assert(entries_view(ob)[j] == entries_view(out@)[j]);
                    }
                }
                assert(forall|x: int| 0 <= x < m@.len() ==> m@[x] == before[x + 1]);
                assert forall|x: int| 0 <= x < m@.len() implies entries_view(m@)[x] == me.skip(
                    i + 1,
                )[x] by {
                    assert(entries_view(before)[x + 1] == me.skip(i as int)[x + 1]);
                }
                assert(entries_view(m@) =~= me.skip(i + 1));
                i = i + 1;
            }
            let r = Value::Mapping(out);
            assert(entries_view(out@) =~= match muted(tv, rs) {
                Tree::Mapping(e) => e,
                _ => Seq::empty(),
            });
            r
        },
        Value::Sequence(items) => {
            let ghost iv = items_view(items@);
            let n = items.len();
            let mut items = items;
            let mut out: Vec<Value> = Vec::new();
            let mut i: usize = 0;
            while items.len() > 0
                invariant
                    i + items@.len() == n == iv.len(),
                    items_view(items@) == iv.skip(i as int),
                    out@.len() == i,
                    forall|j: int| 0 <= j < i ==> #[trigger] items_view(out@)[j] == muted(iv[j], rs),
                decreases items.len(),
            {
                let ghost before = items@;
                let ghost ob = out@;
                let v = items.remove(0);
                assert(iv.skip(i as int)[0] == items_view(before)[0]);
                assert(iv[i as int] == v@);
                proof {
                    assert(decreases_to!(tv => tv->Sequence_0));
                    assert(decreases_to!(iv => iv[i as int]));
                    assert(decreases_to!(tv => v@));
                }
                let mv = mute_values(v, replacements);
                out.push(mv);
                assert forall|j: int| 0 <= j <= i implies #[trigger] items_view(out@)[j] == muted(
                    iv[j],
                    rs,
                ) by {
                    if j < i {
                        assert(out@[j] == ob[j]);
                        assert(items_view(ob)[j] == items_view(out@)[j]);
                    }
                }
                assert(forall|x: int| 0 <= x < items@.len() ==> items@[x] == before[x + 1]);
                assert forall|x: int| 0 <= x < items@.len() implies items_view(items@)[x]
                    == iv.skip(i + 1)[x] by {
                    assert(items_view(before)[x + 1] == iv.skip(i as int)[x + 1]);
                }
                assert(items_view(items@) =~= iv.skip(i + 1));
                i = i + 1;
            }
            let r = Value::Sequence(out);
            assert(items_view(out@) =~= match muted(tv, rs) {
                Tree::Sequence(e) => e,
                _ => Seq::empty(),
            });
            r
        },
        other => other,
    }
}

} // verus!
