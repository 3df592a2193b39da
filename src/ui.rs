//! The prompt.
use vstd::prelude::*;
use vstd::string::*;
use crate::text::{chars_of, push_char};

verus! {

/// `s` with every occurrence of `pat` (scanning left to right, without
/// overlaps) replaced by `rep`; an empty `pat` replaces nothing.
pub open spec fn replace_all(s: Seq<char>, pat: Seq<char>, rep: Seq<char>) -> Seq<char>
    decreases s.len(),
{
    if pat.len() == 0 || s.len() == 0 {
        s
    } else if s.len() >= pat.len() && s.subrange(0, pat.len() as int) == pat {
        rep + replace_all(s.subrange(pat.len() as int, s.len() as int), pat, rep)
    } else {
        seq![s[0]] + replace_all(s.drop_first(), pat, rep)
    }
}

fn occurs_at(cs: &Vec<char>, i: usize, pat: &Vec<char>) -> (r: bool)
    requires
        i <= cs@.len(),
    ensures
        r == (i + pat@.len() <= cs@.len() && cs@.subrange(i as int, i + pat@.len()) == pat@),
{
    if pat.len() > cs.len() - i {
        return false;
    }
    let n = cs.len();
    let mut k: usize = 0;
    while k < pat.len()
        invariant
            n == cs@.len(),
            i <= cs@.len(),
            i + pat@.len() <= cs@.len(),
            k <= pat@.len(),
            cs@.subrange(i as int, i + k) == pat@.subrange(0, k as int),
        decreases pat@.len() - k,
    {
        if cs[i + k] != pat[k] {
            assert(cs@.subrange(i as int, i + pat@.len())[k as int] != pat@[k as int]);
            return false;
        }
        k = k + 1;
        assert(cs@.subrange(i as int, i + k) =~= pat@.subrange(0, k as int));
    }
    assert(pat@.subrange(0, pat@.len() as int) =~= pat@);
    true
}

/// Every occurrence of `pat` in `s` replaced by `rep`.
pub fn replace_str(s: &str, pat: &str, rep: &str) -> (r: String)
    ensures
        r@ == replace_all(s@, pat@, rep@),
{
    let cs = chars_of(s);
    let ps = chars_of(pat);
    let n = cs.len();
    let m = ps.len();
    let mut out = String::new();
    if m == 0 {
        return String::from_str(s);
    }
    let mut i: usize = 0;
    proof {
        assert(cs@.subrange(0, n as int) =~= cs@);
        assert(out@ + replace_all(cs@.subrange(0, n as int), pat@, rep@) =~= replace_all(s@, pat@, rep@));
    }
    while i < n
        invariant
            n == cs@.len(),
            cs@ == s@,
            ps@ == pat@,
            m == ps@.len(),
            m > 0,
            i <= n,
            out@ + replace_all(cs@.subrange(i as int, n as int), pat@, rep@) == replace_all(
                s@,
                pat@,
                rep@,
            ),
        decreases n - i,
    {
        let ghost t = cs@.subrange(i as int, n as int);
        let ghost before = out@;
        if occurs_at(&cs, i, &ps) {
            out.append(rep);
            proof {
                assert(t.subrange(0, m as int) =~= cs@.subrange(i as int, i + m));
                assert(t.subrange(m as int, t.len() as int) =~= cs@.subrange(i + m, n as int));
                assert(out@ + replace_all(cs@.subrange(i + m, n as int), pat@, rep@) =~= before
                    + replace_all(t, pat@, rep@));
            }
            i = i + m;
        } else {
            push_char(&mut out, cs[i]);
            proof {
                if t.len() >= m {
                    assert(t.subrange(0, m as int) =~= cs@.subrange(i as int, i + m));
                }
                assert(t.drop_first() =~= cs@.subrange(i + 1, n as int));
                assert(out@ + replace_all(cs@.subrange(i + 1, n as int), pat@, rep@) =~= before
                    + replace_all(t, pat@, rep@));
            }
            i = i + 1;
        }
    }
    proof {
        assert(cs@.subrange(n as int, n as int) =~= Seq::<char>::empty());
        assert(out@ + Seq::<char>::empty() =~= out@);
    }
    out
}

/// `path` with the home directory shown as `~`.
pub open spec fn home_shortened(path: Seq<char>, home: Option<Seq<char>>) -> Seq<char> {
    match home {
        Some(h) => replace_all(path, h, "~"@),
        None => path,
    }
}

pub fn expand_home(path: &str, home: Option<&str>) -> (r: String)
    ensures
        r@ == home_shortened(path@, match home {
            Some(h) => Some(h@),
            None => None,
        }),
{
    match home {
        Some(h) => replace_str(path, h, "~"),
        None => String::from_str(path),
    }
}

/// The prompt `user:cwd$ `, the home directory shown as `~`.
pub fn format_prompt_with(cwd: &str, user: &str, home: Option<&str>) -> (r: String)
    ensures
        r@ == user@ + ":"@ + home_shortened(cwd@, match home {
            Some(h) => Some(h@),
            None => None,
        }) + "$ "@,
{
    let shown = expand_home(cwd, home);
    let r = String::from_str(user).concat(":").concat(shown.as_str()).concat("$ ");
    r
}

} // verus!
