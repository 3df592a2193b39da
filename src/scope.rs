//! Saving and restoring the variables that a function call shadows.
use vstd::prelude::*;
use crate::variables::Variables;

verus! {

/// What a function call saved: the caller's positional parameters and, for
/// each variable it assigned for the call, the caller's value (or `None`
/// where the caller had no such variable).
pub ghost struct ScopeV {
    pub args: Seq<Seq<char>>,
    pub saved: Map<Seq<char>, Option<Seq<char>>>,
}

/// The value of `k` in `named`, or `None` where it is unset.
pub open spec fn value_in(named: Map<Seq<char>, Seq<char>>, k: Seq<char>) -> Option<Seq<char>> {
    if named.contains_key(k) {
        Some(named[k])
    } else {
        None
    }
}

/// What a call that assigns `keys` saves from the caller's variables.
pub open spec fn scope_of(
    named: Map<Seq<char>, Seq<char>>,
    positional: Seq<Seq<char>>,
    keys: Set<Seq<char>>,
) -> ScopeV {
    ScopeV { args: positional, saved: Map::new(|k: Seq<char>| keys.contains(k), |k: Seq<char>| value_in(named, k)) }
}

/// The named variables after restoring `scope` over `named`: each saved
/// variable goes back to its saved value or is unset again; the others keep
/// their values.
pub open spec fn restored(named: Map<Seq<char>, Seq<char>>, scope: ScopeV) -> Map<
    Seq<char>,
    Seq<char>,
> {
    Map::new(
        |k: Seq<char>|
            if scope.saved.contains_key(k) {
                scope.saved[k] is Some
            } else {
                named.contains_key(k)
            },
        |k: Seq<char>|
            if scope.saved.contains_key(k) {
                scope.saved[k]->Some_0
            } else {
                named[k]
            },
    )
}

/// After a function call, the positional parameters and every variable
/// that the call assigned for its duration are what they were before the
/// call, whatever the body did to them and whether it succeeded or failed.
pub proof fn lemma_call_restores(
    before: Map<Seq<char>, Seq<char>>,
    before_args: Seq<Seq<char>>,
    keys: Set<Seq<char>>,
    after_body: Map<Seq<char>, Seq<char>>,
)
    ensures
        ({
            let scope = scope_of(before, before_args, keys);
            let back = restored(after_body, scope);
            &&& scope.args == before_args
            &&& forall|k: Seq<char>| #[trigger] keys.contains(k) ==> value_in(back, k) == value_in(before, k)
            &&& forall|k: Seq<char>| !keys.contains(k) ==> value_in(back, k) == #[trigger] value_in(after_body, k)
        }),
{
}

/// Maps that agree on every lookup are equal.
pub proof fn lemma_same_values(a: Map<Seq<char>, Seq<char>>, b: Map<Seq<char>, Seq<char>>)
    requires
        forall|k: Seq<char>| #[trigger] value_in(a, k) == value_in(b, k),
    ensures
        a == b,
{
    assert forall|k: Seq<char>| a.contains_key(k) <==> b.contains_key(k) by {
        assert(value_in(a, k) == value_in(b, k));
    }
    assert forall|k: Seq<char>| a.contains_key(k) implies a[k] == b[k] by {
        assert(value_in(a, k) == value_in(b, k));
    }
    assert(a =~= b);
}

/// The saved state of one function call.
pub struct CallScope {
    args: Vec<String>,
    saved: Vec<(String, Option<String>)>,
    model: Ghost<ScopeV>,
}

pub open spec fn opt_view(v: Option<String>) -> Option<Seq<char>> {
    match v {
        Some(s) => Some(s@),
        None => None,
    }
}

impl CallScope {
    pub closed spec fn view(&self) -> ScopeV {
        self.model@
    }

    /// Saved keys are distinct and the saved entries are the model.
    pub closed spec fn wf(&self) -> bool {
        &&& self.model@.args == self.args@.map_values(|s: String| s@)
        &&& forall|i: int, j: int|
            0 <= i < self.saved@.len() && 0 <= j < self.saved@.len() && i != j
                ==> (#[trigger] self.saved@[i]).0@ != (#[trigger] self.saved@[j]).0@
        &&& forall|i: int|
            0 <= i < self.saved@.len() ==> self.model@.saved.contains_key(
                (#[trigger] self.saved@[i]).0@,
            ) && self.model@.saved[self.saved@[i].0@] == opt_view(self.saved@[i].1)
        &&& forall|k: Seq<char>|
            #[trigger] self.model@.saved.contains_key(k) ==> exists|i: int|
                0 <= i < self.saved@.len() && (#[trigger] self.saved@[i]).0@ == k
    }

    /// Saves the positional parameters and the present values of `keys`.
    pub fn enter(vars: &Variables, keys: &Vec<String>) -> (r: CallScope)
        requires
            vars.wf(),
        ensures
            r.wf(),
            r.view() == scope_of(
                vars.named(),
                vars.positional(),
                keys@.map_values(|s: String| s@).to_set(),
            ),
    {
        let ghost keyset = keys@.map_values(|s: String| s@).to_set();
        let mut saved: Vec<(String, Option<String>)> = Vec::new();
        let ghost mut m: Map<Seq<char>, Option<Seq<char>>> = Map::empty();
        let mut i: usize = 0;
        while i < keys.len()
            invariant
                vars.wf(),
                i <= keys@.len(),
                keyset == keys@.map_values(|s: String| s@).to_set(),
                forall|a: int, b: int|
                    0 <= a < saved@.len() && 0 <= b < saved@.len() && a != b
                        ==> (#[trigger] saved@[a]).0@ != (#[trigger] saved@[b]).0@,
                forall|a: int|
                    0 <= a < saved@.len() ==> m.contains_key((#[trigger] saved@[a]).0@)
                        && m[saved@[a].0@] == opt_view(saved@[a].1),
                forall|k: Seq<char>|
                    #[trigger] m.contains_key(k) ==> exists|a: int|
                        0 <= a < saved@.len() && (#[trigger] saved@[a]).0@ == k,
                forall|k: Seq<char>| #[trigger] m.contains_key(k) ==> m[k] == value_in(vars.named(), k),
                forall|k: Seq<char>| #[trigger] m.contains_key(k) <==> exists|b: int| 0 <= b < i && (#[trigger] keys@[b])@ == k,
            decreases keys@.len() - i,
        {
            let ghost old_saved = saved@;
            let ghost old_m = m;
            let mut present = false;
            let mut j: usize = 0;
            while j < saved.len()
                invariant
                    j <= saved@.len(),
                    i < keys@.len(),
                    present ==> m.contains_key(keys@[i as int]@),
                    !present ==> forall|a: int| 0 <= a < j ==> (#[trigger] saved@[a]).0@ != keys@[i as int]@,
                    forall|a: int|
                        0 <= a < saved@.len() ==> m.contains_key((#[trigger] saved@[a]).0@),
                decreases saved@.len() - j,
            {
                if saved[j].0 == keys[i] {
                    present = true;
                }
                j = j + 1;
            }
            if !present {
                let prior = match vars.get_named(keys[i].as_str()) {
                    Some(v) => Some(v.clone()),
                    None => None,
                };
                proof {
                    m = m.insert(keys@[i as int]@, opt_view(prior));
                    assert(!m.contains_key(keys@[i as int]@) ==> false);
                }
                saved.push((keys[i].clone(), prior));
            }
            i = i + 1;
            proof {
                assert forall|k: Seq<char>| #[trigger] m.contains_key(k) implies exists|a: int|
                    0 <= a < saved@.len() && (#[trigger] saved@[a]).0@ == k by {
                    if old_m.contains_key(k) {
                        let a = choose|a: int| 0 <= a < old_saved.len() && (#[trigger] old_saved[a]).0@ == k;
                        assert(saved@[a] == old_saved[a]);
                    } else {
                        assert(saved@[saved@.len() - 1].0@ == k);
                    }
                }
                assert forall|k: Seq<char>| #[trigger] m.contains_key(k) <==> exists|b: int| 0 <= b < i && (#[trigger] keys@[b])@ == k by {
                    if exists|b: int| 0 <= b < i && (#[trigger] keys@[b])@ == k {
                        let b = choose|b: int| 0 <= b < i && (#[trigger] keys@[b])@ == k;
                        if b < i - 1 {
                            assert(m.contains_key(k));
                        }
                    }
                    if m.contains_key(k) && k != keys@[i - 1]@ {
                        let b = choose|b: int| 0 <= b < i - 1 && (#[trigger] keys@[b])@ == k;
                        assert(0 <= b < i);
                    }
                }
            }
        }
        let r = CallScope { args: vars.get_positional_args(), saved, model: Ghost(ScopeV { args: vars.positional(), saved: m }) };
        proof {
            let target = scope_of(vars.named(), vars.positional(), keyset);
            assert forall|k: Seq<char>| m.contains_key(k) <==> keyset.contains(k) by {
                let kv = keys@.map_values(|s: String| s@);
                if keyset.contains(k) {
                    let b = choose|b: int| 0 <= b < kv.len() && kv[b] == k;
                    assert(keys@[b]@ == k);
                }
                if m.contains_key(k) {
                    let b = choose|b: int| 0 <= b < i && (#[trigger] keys@[b])@ == k;
                    assert(kv[b] == k);
                }
            }
            assert(m =~= target.saved);
        }
        r
    }

    /// Puts back what `enter` saved: the positional parameters, and each
    /// saved variable's value (or its absence).
    pub fn restore(self, vars: &mut Variables)
        requires
            self.wf(),
            old(vars).wf(),
        ensures
            final(vars).wf(),
            final(vars).positional() == self.view().args,
            final(vars).named() == restored(old(vars).named(), self.view()),
    {
        let ghost start = vars.named();
        let ghost sc = self.model@;
        let ghost mut done: Set<Seq<char>> = Set::empty();
        let CallScope { args, saved, model } = self;
        let mut i: usize = 0;
        while i < saved.len()
            invariant
                vars.wf(),
                i <= saved@.len(),
                forall|a: int, b: int|
                    0 <= a < saved@.len() && 0 <= b < saved@.len() && a != b
                        ==> (#[trigger] saved@[a]).0@ != (#[trigger] saved@[b]).0@,
                forall|a: int|
                    0 <= a < saved@.len() ==> sc.saved.contains_key((#[trigger] saved@[a]).0@)
                        && sc.saved[saved@[a].0@] == opt_view(saved@[a].1),
                forall|k: Seq<char>|
                    #[trigger] sc.saved.contains_key(k) ==> exists|a: int|
                        0 <= a < saved@.len() && (#[trigger] saved@[a]).0@ == k,
                forall|a: int| 0 <= a < i ==> done.contains((#[trigger] saved@[a]).0@),
                forall|k: Seq<char>| #[trigger] done.contains(k) ==> exists|a: int| 0 <= a < i && (#[trigger] saved@[a]).0@ == k,
                forall|k: Seq<char>|
                    #[trigger] value_in(vars.named(), k) == if done.contains(k) {
                        sc.saved[k]
                    } else {
                        value_in(start, k)
                    },
            decreases saved@.len() - i,
        {
            let ghost key = saved@[i as int].0@;
            let ghost before = vars.named();
            match &saved[i].1 {
                Some(v) => vars.set(saved[i].0.clone(), v.clone()),
                None => vars.remove(saved[i].0.as_str()),
            }
            proof {
                assert(!done.contains(key)) by {
                    if done.contains(key) {
                        let a = choose|a: int| 0 <= a < i && (#[trigger] saved@[a]).0@ == key;
                        assert(saved@[a].0@ != saved@[i as int].0@);
                    }
                }
                done = done.insert(key);
                assert forall|k: Seq<char>|
                    #[trigger] value_in(vars.named(), k) == if done.contains(k) {
                        sc.saved[k]
                    } else {
                        value_in(start, k)
                    } by {
                    if k != key {
                        assert(value_in(vars.named(), k) == value_in(before, k));
                    }
                }
                assert forall|k: Seq<char>| #[trigger] done.contains(k) implies exists|a: int| 0 <= a < i + 1 && (#[trigger] saved@[a]).0@ == k by {
                    if k != key {
                        let a = choose|a: int| 0 <= a < i && (#[trigger] saved@[a]).0@ == k;
                        assert(0 <= a < i + 1);
                    } else {
                        assert(saved@[i as int].0@ == k);
                    }
                }
            }
            i = i + 1;
        }
        vars.set_positional_args(args);
        proof {
            let target = restored(start, sc);
            assert forall|k: Seq<char>| #[trigger] value_in(vars.named(), k) == value_in(target, k) by {
                if sc.saved.contains_key(k) {
                    let a = choose|a: int| 0 <= a < saved@.len() && (#[trigger] saved@[a]).0@ == k;
                    assert(done.contains(k));
                } else {
                    if done.contains(k) {
                        let a = choose|a: int| 0 <= a < saved@.len() && (#[trigger] saved@[a]).0@ == k;
                        assert(sc.saved.contains_key(saved@[a].0@));
                    }
                }
            }
            lemma_same_values(vars.named(), target);
        }
    }
}

} // verus!
