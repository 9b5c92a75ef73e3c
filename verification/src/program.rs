//! Programs: a mapping from function name to function. The entries are kept
//! sorted by name, so iteration (and rendering) is lexicographic; inserting
//! under an existing name replaces that entry, the later insertion winning.

use vstd::prelude::*;

use crate::cfg::{spec_render_function, Function};
use crate::ir::StmtV;
use crate::LiftError;

verus! {

/// Strict lexicographic order on character sequences, by code point; a
/// proper prefix comes first. This is the order `str` comparison gives.
pub open spec fn lex_lt(a: Seq<char>, b: Seq<char>) -> bool
    decreases a.len(),
{
    if b.len() == 0 {
        false
    } else if a.len() == 0 {
        true
    } else if (a[0] as u32) < (b[0] as u32) {
        true
    } else if a[0] == b[0] {
        lex_lt(a.subrange(1, a.len() as int), b.subrange(1, b.len() as int))
    } else {
        false
    }
}

/// No sequence is lexicographically below itself.
proof fn lemma_lex_irrefl(a: Seq<char>)
    ensures
        !lex_lt(a, a),
    decreases a.len(),
{
    if a.len() > 0 {
        lemma_lex_irrefl(a.subrange(1, a.len() as int));
    }
}

/// Lexicographic order is transitive.
proof fn lemma_lex_trans(a: Seq<char>, b: Seq<char>, c: Seq<char>)
    requires
        lex_lt(a, b),
        lex_lt(b, c),
    ensures
        lex_lt(a, c),
    decreases a.len() + b.len() + c.len(),
{
    if a.len() > 0 && b.len() > 0 && c.len() > 0 {
        if a[0] == b[0] && b[0] == c[0] {
            lemma_lex_trans(
                a.subrange(1, a.len() as int),
                b.subrange(1, b.len() as int),
                c.subrange(1, c.len() as int),
            );
        }
    }
}

/// Two sequences with neither below the other are equal.
proof fn lemma_lex_connected(a: Seq<char>, b: Seq<char>)
    requires
        !lex_lt(a, b),
        !lex_lt(b, a),
    ensures
        a == b,
    decreases a.len(),
{
    if a.len() == 0 {
        assert(b.len() == 0);
        assert(a =~= b);
    } else {
        assert(b.len() > 0);
        let ua = a[0] as u32;
        assert(ua == b[0] as u32);
        vstd::utf8::char_u32_cast(a[0], ua);
        vstd::utf8::char_u32_cast(b[0], ua);
        assert(a[0] == b[0]);
        let ta = a.subrange(1, a.len() as int);
        let tb = b.subrange(1, b.len() as int);
        lemma_lex_connected(ta, tb);
        assert forall|k: int| 0 <= k < a.len() implies a[k] == b[k] by {
            if k > 0 {
                assert(a[k] == ta[k - 1]);
                assert(b[k] == tb[k - 1]);
            }
        }
        assert(a =~= b);
    }
}

/// Compare two strings in lexicographic order.
fn str_lt(a: &str, b: &str) -> (r: bool)
    ensures
        r == lex_lt(a@, b@),
{
    let alen = a.unicode_len();
    let blen = b.unicode_len();
    let mut i: usize = 0;
    proof {
        assert(a@.subrange(0, alen as int) =~= a@);
        assert(b@.subrange(0, blen as int) =~= b@);
    }
    while i < alen && i < blen
        invariant
            i <= alen,
            i <= blen,
            alen == a@.len(),
            blen == b@.len(),
            lex_lt(a@, b@) == lex_lt(
                a@.subrange(i as int, alen as int),
                b@.subrange(i as int, blen as int),
            ),
        decreases alen - i,
    {
        let ca = a.get_char(i);
        let cb = b.get_char(i);
        proof {
            let sa = a@.subrange(i as int, alen as int);
            let sb = b@.subrange(i as int, blen as int);
            assert(sa[0] == a@[i as int]);
            assert(sb[0] == b@[i as int]);
            assert(sa.subrange(1, sa.len() as int) =~= a@.subrange(i + 1, alen as int));
            assert(sb.subrange(1, sb.len() as int) =~= b@.subrange(i + 1, blen as int));
        }
        if ca == cb {
            i = i + 1;
        } else {
            return (ca as u32) < (cb as u32);
        }
    }
    proof {
        let sa = a@.subrange(i as int, alen as int);
        let sb = b@.subrange(i as int, blen as int);
        if i == alen {
            assert(sa =~= Seq::<char>::empty());
        }
        if i == blen {
            assert(sb =~= Seq::<char>::empty());
        }
    }
    alen < blen
}

/// Pairwise-strictly-sorted names: iteration order is lexicographic and no
/// name repeats.
pub open spec fn sorted_names(s: Seq<Seq<char>>) -> bool {
    forall|i: int, j: int| 0 <= i < j < s.len() ==> lex_lt(#[trigger] s[i], #[trigger] s[j])
}

/// The mapping a list of entries stands for: later entries override earlier
/// ones (under sorted names no name repeats, so order does not matter).
pub open spec fn as_map(entries: Seq<(String, Function)>) -> Map<Seq<char>, Function>
    decreases entries.len(),
{
    if entries.len() == 0 {
        Map::<Seq<char>, Function>::empty()
    } else {
        as_map(entries.drop_last()).insert(entries.last().0@, entries.last().1)
    }
}

/// Inserting an entry whose key none of the entries at or after the insertion
/// point carries acts as a map insertion.
proof fn lemma_as_map_insert(s: Seq<(String, Function)>, i: int, e: (String, Function))
    requires
        0 <= i <= s.len(),
        forall|k: int| i <= k < s.len() ==> (#[trigger] s[k]).0@ != e.0@,
    ensures
        as_map(s.insert(i, e)) == as_map(s).insert(e.0@, e.1),
    decreases s.len(),
{
    let t = s.insert(i, e);
    if i == s.len() {
        assert(t.drop_last() =~= s);
        assert(t.last() == e);
    } else {
        assert(t.last() == s.last());
        assert(t.drop_last() =~= s.drop_last().insert(i, e));
        lemma_as_map_insert(s.drop_last(), i, e);
        assert(s.last() == s[s.len() - 1]);
        assert(as_map(s.drop_last()).insert(e.0@, e.1).insert(s.last().0@, s.last().1) =~= as_map(
            s.drop_last(),
        ).insert(s.last().0@, s.last().1).insert(e.0@, e.1));
    }
}

/// Replacing the entry at `i` by one with the same key, a key no later entry
/// carries, acts as a map insertion.
proof fn lemma_as_map_update(s: Seq<(String, Function)>, i: int, e: (String, Function))
    requires
        0 <= i < s.len(),
        s[i].0@ == e.0@,
        forall|k: int| i < k < s.len() ==> (#[trigger] s[k]).0@ != e.0@,
    ensures
        as_map(s.update(i, e)) == as_map(s).insert(e.0@, e.1),
    decreases s.len(),
{
    let t = s.update(i, e);
    if i == s.len() - 1 {
        assert(t.drop_last() =~= s.drop_last());
        assert(t.last() == e);
        assert(as_map(s.drop_last()).insert(e.0@, e.1) =~= as_map(s.drop_last()).insert(
            s.last().0@,
            s.last().1,
        ).insert(e.0@, e.1));
    } else {
        assert(t.last() == s.last());
        assert(t.drop_last() =~= s.drop_last().update(i, e));
        lemma_as_map_update(s.drop_last(), i, e);
        assert(s.last() == s[s.len() - 1]);
        assert(as_map(s.drop_last()).insert(e.0@, e.1).insert(s.last().0@, s.last().1) =~= as_map(
            s.drop_last(),
        ).insert(s.last().0@, s.last().1).insert(e.0@, e.1));
    }
}

/// An IR program: functions by name, iterated in lexicographic name order.
#[derive(Debug)]
pub struct Program {
    /// The entries, sorted by name.
    pub funcs: Vec<(String, Function)>,
}

/// The rendering of a program: each function as `fn <name>():` followed by
/// the function's own rendering, in entry order.
pub open spec fn spec_render_program(entries: Seq<(String, Function)>) -> Seq<char>
    decreases entries.len(),
{
    if entries.len() == 0 {
        Seq::<char>::empty()
    } else {
        "fn "@ + entries[0].0@ + "():\n"@ + spec_render_function(entries[0].1@)
            + spec_render_program(entries.subrange(1, entries.len() as int))
    }
}

/// A function whose rendering cannot fail: it is empty, or its entry block
/// holds assignments only.
pub open spec fn fn_renders_clean(fv: Seq<Seq<StmtV>>) -> bool {
    fv.len() == 0 || (forall|j: int| 0 <= j < fv[0].len() ==> fv[0][j] is Assign)
}

impl Program {
    /// The entry names, in order.
    pub open spec fn names(self) -> Seq<Seq<char>> {
        self.funcs@.map(|i: int, e: (String, Function)| e.0@)
    }

    /// Names sorted and every function well-formed.
    pub open spec fn wf(self) -> bool {
        &&& sorted_names(self.names())
        &&& forall|i: int| 0 <= i < self.funcs@.len() ==> (#[trigger] self.funcs@[i]).1.wf()
    }

    /// Make a new empty program.
    pub fn new() -> (r: Program)
        ensures
            r.wf(),
            r@ == Map::<Seq<char>, Function>::empty(),
            r.funcs@.len() == 0,
    {
        Program { funcs: Vec::new() }
    }

    /// How many functions the program holds.
    pub fn len(&self) -> (r: usize)
        ensures
            r == self.funcs@.len(),
    {
        self.funcs.len()
    }

    /// Insert a function under a name. A duplicate name overwrites: the
    /// program keeps exactly one entry per name, and iteration order stays
    /// lexicographic.
    pub fn insert(&mut self, name: String, func: Function)
        requires
            old(self).wf(),
            func.wf(),
        ensures
            final(self).wf(),
            final(self)@ == old(self)@.insert(name@, func),
            final(self).funcs@.len() == if old(self).names().contains(name@) {
                old(self).funcs@.len()
            } else {
                old(self).funcs@.len() + 1
            },
            old(self).funcs@.len() == 0 ==> final(self).funcs@ == seq![(name, func)],
    {
        let ghost s = self.funcs@;
        let ghost ns = self.names();
        let mut i: usize = 0;
        while i < self.funcs.len() && str_lt(self.funcs[i].0.as_str(), name.as_str())
            invariant
                *self == *old(self),
                old(self).wf(),
                s == self.funcs@,
                ns == self.names(),
                i <= s.len(),
                forall|k: int| 0 <= k < i ==> lex_lt(#[trigger] ns[k], name@),
            decreases s.len() - i,
        {
            proof {
                assert(ns[i as int] == s[i as int].0@);
            }
            i = i + 1;
        }
        proof {
            assert(forall|k: int| 0 <= k < i ==> lex_lt(#[trigger] ns[k], name@));
            if (i as int) < s.len() {
                assert(ns[i as int] == s[i as int].0@);
            }
        }
        if i < self.funcs.len() && self.funcs[i].0 == name {
            // Same name: the later insertion wins.
            proof {
                assert(ns[i as int] == name@);
                assert forall|k: int| (i as int) < k < s.len() implies (#[trigger] s[k]).0@
                    != name@ by {
                    assert(ns[k] == s[k].0@);
                    assert(lex_lt(ns[i as int], ns[k]));
                    if s[k].0@ == name@ {
                        lemma_lex_irrefl(name@);
                    }
                }
                lemma_as_map_update(s, i as int, (name, func));
            }
            let ghost e = (name, func);
            self.funcs.set(i, (name, func));
            proof {
                assert(self.funcs@ =~= s.update(i as int, e));
                assert(self.names() =~= ns.update(i as int, name@));
                assert(self.names() =~= ns);
                assert(ns.contains(name@));
            }
        } else {
            // New name: it goes where the order puts it.
            proof {
                assert forall|k: int| i <= k < s.len() implies (#[trigger] s[k]).0@ != name@ by {
                    assert(ns[k] == s[k].0@);
                    if k == i {
                        if ns[k] == name@ {
                            lemma_lex_irrefl(name@);
                        }
                    } else {
                        if !lex_lt(ns[i as int], name@) && ns[i as int] != name@ {
                            lemma_lex_connected_helper(ns[i as int], name@);
                        }
                        lemma_lex_trans(name@, ns[i as int], ns[k]);
                        if ns[k] == name@ {
                            lemma_lex_irrefl(name@);
                        }
                    }
                }
                lemma_as_map_insert(s, i as int, (name, func));
                assert forall|k: int| 0 <= k < s.len() implies ns[k] != name@ by {
                    if k < i {
                        lemma_lex_irrefl(ns[k]);
                        if ns[k] == name@ {
                            lemma_lex_irrefl(name@);
                        }
                    } else {
                        assert(ns[k] == s[k].0@);
                    }
                }
                assert(!ns.contains(name@));
            }
            let ghost e = (name, func);
            self.funcs.insert(i, (name, func));
            proof {
                assert(self.funcs@ =~= s.insert(i as int, e));
                if s.len() == 0 {
                    assert(self.funcs@ =~= seq![e]);
                }
                assert(self.names() =~= ns.insert(i as int, name@));
                if (i as int) < s.len() && ns[i as int] != name@ {
                    lemma_lex_connected_helper(ns[i as int], name@);
                }
                assert forall|p: int, q: int|
                    0 <= p < q < self.names().len() implies lex_lt(
                    #[trigger] self.names()[p],
                    #[trigger] self.names()[q],
                ) by {
                    if p == i && q > i + 1 {
                        lemma_lex_trans(name@, ns[i as int], ns[q - 1]);
                    }
                }
            }
        }
    }

    /// Render the program: each function as `fn <name>():` and its body, in
    /// lexicographic name order.
    pub fn render(&self) -> (r: Result<String, LiftError>)
        requires
            self.wf(),
        ensures
            (match r {
                Ok(s) => s@ == spec_render_program(self.funcs@),
                Err(e) => e == LiftError::Decode,
            }),
            (forall|k: int|
                0 <= k < self.funcs@.len() ==> fn_renders_clean(
                    (#[trigger] self.funcs@[k]).1@,
                )) ==> r is Ok,
    {
        let ghost s = self.funcs@;
        let mut out = String::new();
        let mut i: usize = 0;
        proof {
            assert(s.subrange(0, s.len() as int) =~= s);
            assert(Seq::<char>::empty() + spec_render_program(s) =~= spec_render_program(s));
        }
        while i < self.funcs.len()
            invariant
                self.wf(),
                s == self.funcs@,
                i <= s.len(),
                out@ + spec_render_program(s.subrange(i as int, s.len() as int))
                    == spec_render_program(s),
            decreases s.len() - i,
        {
            let ghost prev = out@;
            let ghost tail = s.subrange(i as int, s.len() as int);
            proof {
                assert(tail[0] == s[i as int]);
                assert(tail.subrange(1, tail.len() as int) =~= s.subrange(i + 1, s.len() as int));
            }
            let body = match self.funcs[i].1.render() {
                Ok(b) => b,
                Err(_) => {
                    return Err(LiftError::Decode);
                },
            };
            out.append("fn ");
            out.append(self.funcs[i].0.as_str());
            out.append("():\n");
            out.append(body.as_str());
            proof {
                assert(out@ + spec_render_program(s.subrange(i + 1, s.len() as int)) =~= prev
                    + spec_render_program(tail));
            }
            i = i + 1;
        }
        proof {
            assert(s.subrange(s.len() as int, s.len() as int) =~= Seq::<(String, Function)>::empty());
            assert(out@ + Seq::<char>::empty() =~= out@);
        }
        Ok(out)
    }
}

/// From `!lex_lt(a, b)` and `a != b` conclude `lex_lt(b, a)`.
proof fn lemma_lex_connected_helper(a: Seq<char>, b: Seq<char>)
    requires
        !lex_lt(a, b),
        a != b,
    ensures
        lex_lt(b, a),
{
    if !lex_lt(b, a) {
        lemma_lex_connected(a, b);
    }
}

impl View for Program {
    type V = Map<Seq<char>, Function>;

    open spec fn view(&self) -> Map<Seq<char>, Function> {
        as_map(self.funcs@)
    }
}

/// Program keying: inserting twice under one name leaves exactly the later
/// function under that name, as if the first insertion had not happened.
pub proof fn lemma_program_keying(
    m: Map<Seq<char>, Function>,
    n: Seq<char>,
    f1: Function,
    f2: Function,
)
    ensures
        m.insert(n, f1).insert(n, f2) == m.insert(n, f2),
        m.insert(n, f2).dom().contains(n),
        m.insert(n, f2)[n] == f2,
{
    assert(m.insert(n, f1).insert(n, f2) =~= m.insert(n, f2));
}

} // verus!
