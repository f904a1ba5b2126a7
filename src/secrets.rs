use vstd::prelude::*;

use crate::text::owned;

verus! {

/// What `str::replace` returns: `s` with every non-overlapping occurrence
/// of `from` replaced by `to`.
pub uninterp spec fn replaced(s: Seq<char>, from: Seq<char>, to: Seq<char>) -> Seq<char>;

/// Relies on `str::replace`; its result depends on the three texts alone.
#[verifier::external_body]
fn replace_all(s: &str, from: &str, to: &str) -> (r: String)
    ensures
        r@ == replaced(s@, from@, to@),
{
    s.replace(from, to)
}

/// A set of secret texts, each held once, in order of insertion.
pub struct Secrets {
    pub items: Vec<String>,
}

impl View for Secrets {
    type V = Seq<Seq<char>>;

    open spec fn view(&self) -> Seq<Seq<char>> {
        Seq::new(self.items@.len(), |i: int| self.items@[i]@)
    }
}

impl Secrets {
    /// No secret is held twice.
    pub open spec fn wf(&self) -> bool {
        self@.no_duplicates()
    }

    /// An empty set.
    pub fn new() -> (r: Secrets)
        ensures
            r.wf(),
            r@ == Seq::<Seq<char>>::empty(),
    {
        let r = Secrets { items: Vec::new() };
        assert(r@ =~= Seq::<Seq<char>>::empty());
        r
    }

    /// The secrets, in order of insertion.
    pub fn len(&self) -> (r: usize)
        ensures
            r == self@.len(),
    {
        self.items.len()
    }

    /// The secret at position `i`.
    pub fn get(&self, i: usize) -> (r: &String)
        requires
            i < self@.len(),
        ensures
            r@ == self@[i as int],
    {
        &self.items[i]
    }

    /// The position of `s`, if it is held.
    fn position(&self, s: &String) -> (r: Option<usize>)
        ensures
            r matches Some(i) ==> i < self@.len() && self@[i as int] == s@,
            r is None ==> !self@.contains(s@),
    {
        let mut i: usize = 0;
        while i < self.items.len()
            invariant
                0 <= i <= self@.len(),
                forall|j: int| 0 <= j < i ==> self@[j] != s@,
            decreases self@.len() - i,
        {
            if self.items[i] == *s {
                return Some(i);
            }
            i = i + 1;
        }
        None
    }
}

/// Adds `secret` to the set; a secret that is held already stays once.
pub fn insert_secret(secrets: &mut Secrets, secret: &str)
    requires
        old(secrets).wf(),
    ensures
        final(secrets).wf(),
        final(secrets)@.to_set() == old(secrets)@.to_set().insert(secret@),
        old(secrets)@.contains(secret@) ==> final(secrets)@ == old(secrets)@,
        !old(secrets)@.contains(secret@) ==> final(secrets)@ == old(secrets)@.push(secret@),
{
    let s = owned(secret);
    if secrets.position(&s).is_none() {
        let ghost before = secrets@;
        secrets.items.push(s);
        assert(secrets@ =~= before.push(secret@));
        assert forall|x: Seq<char>| secrets@.contains(x) <==> before.contains(x) || x == secret@ by {
            if secrets@.contains(x) && x != secret@ {
                let j = choose|j: int| 0 <= j < secrets@.len() && secrets@[j] == x;
                assert(before[j] == x);
            }
            if before.contains(x) {
                let j = choose|j: int| 0 <= j < before.len() && before[j] == x;
                assert(secrets@[j] == x);
            }
            if x == secret@ {
                assert(secrets@[before.len() as int] == x);
            }
        }
        assert(secrets@.to_set() =~= before.to_set().insert(secret@));
    } else {
        assert(old(secrets)@.to_set() =~= old(secrets)@.to_set().insert(secret@));
    }
}

/// Removes `secret` from the set, if it is held.
pub fn delete_secret(secrets: &mut Secrets, secret: &str)
    requires
        old(secrets).wf(),
    ensures
        final(secrets).wf(),
        final(secrets)@.to_set() == old(secrets)@.to_set().remove(secret@),
        old(secrets)@.contains(secret@) ==> exists|i: int|
            0 <= i < old(secrets)@.len() && old(secrets)@[i] == secret@ && final(secrets)@
                == old(secrets)@.remove(i),
        !old(secrets)@.contains(secret@) ==> final(secrets)@ == old(secrets)@,
{
    let s = owned(secret);
    match secrets.position(&s) {
        Some(i) => {
            let ghost before = secrets@;
            secrets.items.remove(i);
            assert(secrets@ =~= before.remove(i as int));
            assert forall|x: Seq<char>| secrets@.contains(x) <==> before.contains(x) && x != secret@ by {
                if secrets@.contains(x) {
                    let j = choose|j: int| 0 <= j < secrets@.len() && secrets@[j] == x;
                    if j < i {
                        assert(before[j] == x);
                    } else {
                        assert(before[j + 1] == x);
                    }
                }
                if before.contains(x) && x != secret@ {
                    let j = choose|j: int| 0 <= j < before.len() && before[j] == x;
                    if j < i {
                        assert(secrets@[j] == x);
                    } else {
                        assert(secrets@[j - 1] == x);
                    }
                }
            }
            assert(secrets@.to_set() =~= before.to_set().remove(secret@));
        },
        None => {
            assert(old(secrets)@.to_set() =~= old(secrets)@.to_set().remove(secret@));
        },
    }
}

/// `s` after each replacement `(from, to)` of `rs[..n]`, in order.
pub open spec fn replaced_all(s: Seq<char>, rs: Seq<(Seq<char>, Seq<char>)>, n: int) -> Seq<char>
    decreases n,
{
    if n <= 0 || n > rs.len() {
        s
    } else {
        replaced(replaced_all(s, rs, n - 1), rs[n - 1].0, rs[n - 1].1)
    }
}

pub open spec fn pairs_view(rs: Seq<(String, String)>) -> Seq<(Seq<char>, Seq<char>)> {
    Seq::new(rs.len(), |i: int| (rs[i].0@, rs[i].1@))
}

/// `s` with each replacement `(from, to)` applied in turn.
pub fn template_replacements(s: String, replacements: &Vec<(String, String)>) -> (r: String)
    ensures
        r@ == replaced_all(s@, pairs_view(replacements@), replacements@.len() as int),
{
    let ghost rs = pairs_view(replacements@);
    let mut out = s;
    let mut i: usize = 0;
    while i < replacements.len()
        invariant
            0 <= i <= replacements@.len(),
            rs == pairs_view(replacements@),
            out@ == replaced_all(s@, rs, i as int),
        decreases replacements@.len() - i,
    {
        out = replace_all(out.as_str(), replacements[i].0.as_str(), replacements[i].1.as_str());
        i = i + 1;
    }
    out
}

/// `line` with every held secret replaced by `SENSITIVE DATA`, the secrets
/// taken in order of insertion.
pub fn censor_line(line: String, secrets: &Secrets) -> (r: String)
    ensures
        r@ == replaced_all(
            line@,
            Seq::new(secrets@.len(), |i: int| (secrets@[i], "SENSITIVE DATA"@)),
            secrets@.len() as int,
        ),
{
    let ghost rs = Seq::new(secrets@.len(), |i: int| (secrets@[i], "SENSITIVE DATA"@));
    let mut out = line;
    let mut i: usize = 0;
    while i < secrets.items.len()
        invariant
            0 <= i <= secrets@.len(),
            rs == Seq::new(secrets@.len(), |i: int| (secrets@[i], "SENSITIVE DATA"@)),
            out@ == replaced_all(line@, rs, i as int),
        decreases secrets@.len() - i,
    {
        out = replace_all(out.as_str(), secrets.items[i].as_str(), "SENSITIVE DATA");
        i = i + 1;
    }
    out
}

} // verus!
