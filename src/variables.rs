//! The variable store: named string variables plus positional parameters,
//! and `$`-expansion over them.
use vstd::prelude::*;
use vstd::string::*;
use crate::text::{chars_of, clone_strings, is_digit, is_digit_exec, is_name_char, is_name_char_exec, push_char, str_eq, string_of};

verus! {

/// The value of a string of ASCII digits, read in base ten.
pub open spec fn digits_value(s: Seq<char>) -> nat
    decreases s.len(),
{
    if s.len() == 0 {
        0
    } else {
        digits_value(s.drop_last()) * 10 + ((s.last() as u32 - '0' as u32) as nat)
    }
}

/// A non-empty run of ASCII digits: the name of a positional parameter.
pub open spec fn is_number(s: Seq<char>) -> bool {
    s.len() > 0 && forall|i: int| 0 <= i < s.len() ==> is_digit(#[trigger] s[i])
}

/// What `key` stands for: positional parameter `N` (counted from one) when
/// `key` is a number `N` within the positional parameters, else the named
/// variable.
pub open spec fn lookup(
    named: Map<Seq<char>, Seq<char>>,
    positional: Seq<Seq<char>>,
    key: Seq<char>,
) -> Option<Seq<char>> {
    if is_number(key) && 1 <= digits_value(key) && digits_value(key) <= positional.len() {
        Some(positional[digits_value(key) - 1])
    } else if named.contains_key(key) {
        Some(named[key])
    } else {
        None
    }
}

/// The value of an optional lookup, absent values reading as empty.
pub open spec fn or_empty(v: Option<Seq<char>>) -> Seq<char> {
    match v {
        Some(s) => s,
        None => Seq::empty(),
    }
}

/// The variables that the pairs set one after the other: a later pair wins
/// over an earlier one with the same name.
pub open spec fn pairs_map(pairs: Seq<(String, String)>) -> Map<Seq<char>, Seq<char>>
    decreases pairs.len(),
{
    if pairs.len() == 0 {
        Map::empty()
    } else {
        pairs_map(pairs.drop_last()).insert(pairs.last().0@, pairs.last().1@)
    }
}

/// Length of the longest prefix of `s` made of name characters.
pub open spec fn name_run(s: Seq<char>) -> nat
    decreases s.len(),
{
    if s.len() > 0 && is_name_char(s[0]) {
        1 + name_run(s.drop_first())
    } else {
        0
    }
}

/// One left-to-right pass of `$`-substitution over `s`; substituted text is
/// never scanned again.
pub open spec fn expansion(
    named: Map<Seq<char>, Seq<char>>,
    positional: Seq<Seq<char>>,
    s: Seq<char>,
) -> Seq<char>
    decreases s.len(),
{
    if s.len() == 0 {
        Seq::empty()
    } else if s[0] != '$' {
        seq![s[0]] + expansion(named, positional, s.drop_first())
    } else if s.len() >= 2 && is_digit(s[1]) {
        or_empty(lookup(named, positional, s.subrange(1, 2))) + expansion(
            named,
            positional,
            s.subrange(2, s.len() as int),
        )
    } else {
        let n = name_run(s.drop_first()) as int;
        if n == 0 || n >= s.len() {
            seq!['$'] + expansion(named, positional, s.drop_first())
        } else {
            or_empty(lookup(named, positional, s.subrange(1, 1 + n))) + expansion(
                named,
                positional,
                s.subrange(1 + n, s.len() as int),
            )
        }
    }
}

/// Where a word's scanner stands with respect to quoting.
#[derive(PartialEq, Eq, Structural, Clone, Copy)]
pub enum Quoting {
    Plain,
    Single,
    Double,
    Escape,
    DoubleEscape,
}

/// The value of a word as written: quotes and escaping backslashes are
/// removed; single-quoted and escaped characters are taken literally, and
/// each `$` elsewhere (inside double quotes too) is expanded as by
/// `expansion`.
pub open spec fn word_expansion(
    named: Map<Seq<char>, Seq<char>>,
    positional: Seq<Seq<char>>,
    s: Seq<char>,
    q: Quoting,
) -> Seq<char>
    decreases s.len(),
{
    if s.len() == 0 {
        Seq::empty()
    } else {
        let c = s[0];
        let rest = s.drop_first();
        match q {
            Quoting::Single => if c == '\'' {
                word_expansion(named, positional, rest, Quoting::Plain)
            } else {
                seq![c] + word_expansion(named, positional, rest, Quoting::Single)
            },
            Quoting::Escape => seq![c] + word_expansion(named, positional, rest, Quoting::Plain),
            Quoting::DoubleEscape => seq![c] + word_expansion(named, positional, rest, Quoting::Double),
            _ => if q == Quoting::Plain && c == '\'' {
                word_expansion(named, positional, rest, Quoting::Single)
            } else if c == '"' {
                word_expansion(
                    named,
                    positional,
                    rest,
                    if q == Quoting::Plain {
                        Quoting::Double
                    } else {
                        Quoting::Plain
                    },
                )
            } else if c == '\\' {
                word_expansion(
                    named,
                    positional,
                    rest,
                    if q == Quoting::Plain {
                        Quoting::Escape
                    } else {
                        Quoting::DoubleEscape
                    },
                )
            } else if c != '$' {
                seq![c] + word_expansion(named, positional, rest, q)
            } else if s.len() >= 2 && is_digit(s[1]) {
                or_empty(lookup(named, positional, s.subrange(1, 2))) + word_expansion(
                    named,
                    positional,
                    s.subrange(2, s.len() as int),
                    q,
                )
            } else {
                let n = name_run(rest) as int;
                if n == 0 || n >= s.len() {
                    seq!['$'] + word_expansion(named, positional, rest, q)
                } else {
                    or_empty(lookup(named, positional, s.subrange(1, 1 + n))) + word_expansion(
                        named,
                        positional,
                        s.subrange(1 + n, s.len() as int),
                        q,
                    )
                }
            },
        }
    }
}

/// Text without `$` expands to itself.
pub proof fn lemma_expand_without_dollar(
    named: Map<Seq<char>, Seq<char>>,
    positional: Seq<Seq<char>>,
    s: Seq<char>,
)
    requires
        !s.contains('$'),
    ensures
        expansion(named, positional, s) == s,
    decreases s.len(),
{
    if s.len() > 0 {
        assert(s[0] != '$') by {
            if s[0] == '$' {
                assert(s.contains('$'));
            }
        }
        assert(!s.drop_first().contains('$')) by {
            if s.drop_first().contains('$') {
                let j = choose|j: int| 0 <= j < s.drop_first().len() && s.drop_first()[j] == '$';
                assert(s[j + 1] == '$');
            }
        }
        lemma_expand_without_dollar(named, positional, s.drop_first());
        assert(seq![s[0]] + s.drop_first() =~= s);
    }
}

pub proof fn lemma_name_run(s: Seq<char>, a: int, j: int)
    requires
        0 <= a <= j <= s.len(),
        forall|k: int| a <= k < j ==> is_name_char(#[trigger] s[k]),
        j == s.len() || !is_name_char(s[j]),
    ensures
        name_run(s.subrange(a, s.len() as int)) == j - a,
    decreases j - a,
{
    if a < j {
        assert(s.subrange(a, s.len() as int).drop_first() =~= s.subrange(a + 1, s.len() as int));
        lemma_name_run(s, a + 1, j);
    }
}

proof fn lemma_digits_prefix(s: Seq<char>, i: int)
    requires
        0 <= i <= s.len(),
    ensures
        digits_value(s.subrange(0, i)) <= digits_value(s),
    decreases s.len() - i,
{
    if i < s.len() {
        lemma_digits_prefix(s, i + 1);
        assert(s.subrange(0, i + 1).drop_last() =~= s.subrange(0, i));
    } else {
        assert(s.subrange(0, i) =~= s);
    }
}

/// Named string variables and the positional parameters of the current call.
pub struct Variables {
    vars: Vec<(String, String)>,
    positional_args: Vec<String>,
    model: Ghost<Map<Seq<char>, Seq<char>>>,
}

impl Variables {
    /// The named variables.
    pub closed spec fn named(&self) -> Map<Seq<char>, Seq<char>> {
        self.model@
    }

    /// The positional parameters, `$1` first.
    pub closed spec fn positional(&self) -> Seq<Seq<char>> {
        self.positional_args@.map_values(|s: String| s@)
    }

    /// Each name is stored once, and the stored pairs are the named map.
    pub closed spec fn wf(&self) -> bool {
        &&& forall|i: int, j: int|
            0 <= i < self.vars@.len() && 0 <= j < self.vars@.len() && i != j
                ==> (#[trigger] self.vars@[i]).0@ != (#[trigger] self.vars@[j]).0@
        &&& forall|i: int|
            0 <= i < self.vars@.len() ==> self.model@.contains_key(
                (#[trigger] self.vars@[i]).0@,
            ) && self.model@[self.vars@[i].0@] == self.vars@[i].1@
        &&& forall|k: Seq<char>|
            #[trigger] self.model@.contains_key(k) ==> exists|i: int|
                0 <= i < self.vars@.len() && (#[trigger] self.vars@[i]).0@ == k
    }

    /// What `get(key)` answers.
    pub open spec fn lookup(&self, key: Seq<char>) -> Option<Seq<char>> {
        lookup(self.named(), self.positional(), key)
    }

    /// What `expand_word(w)` returns.
    pub open spec fn word_value(&self, w: Seq<char>) -> Seq<char> {
        word_expansion(self.named(), self.positional(), w, Quoting::Plain)
    }

    /// What `expand(s)` returns.
    pub open spec fn expansion(&self, s: Seq<char>) -> Seq<char> {
        expansion(self.named(), self.positional(), s)
    }

    /// An empty store.
    pub fn new() -> (r: Self)
        ensures
            r.wf(),
            r.named() == Map::<Seq<char>, Seq<char>>::empty(),
            r.positional() == Seq::<Seq<char>>::empty(),
    {
        let r = Variables { vars: Vec::new(), positional_args: Vec::new(), model: Ghost(Map::empty()) };
        assert(r.positional() =~= Seq::<Seq<char>>::empty());
        r
    }

    /// A store seeded with `pairs` (the process environment, say); a later
    /// pair wins over an earlier one with the same name.
    pub fn from_pairs(pairs: Vec<(String, String)>) -> (r: Self)
        ensures
            r.wf(),
            r.positional() == Seq::<Seq<char>>::empty(),
            r.named() == pairs_map(pairs@),
    {
        let mut r = Variables::new();
        let mut i: usize = 0;
        while i < pairs.len()
            invariant
                i <= pairs@.len(),
                r.wf(),
                r.positional() == Seq::<Seq<char>>::empty(),
                r.named() == pairs_map(pairs@.subrange(0, i as int)),
            decreases pairs@.len() - i,
        {
            let key = pairs[i].0.clone();
            let value = pairs[i].1.clone();
            r.set(key, value);
            i = i + 1;
            assert(pairs@.subrange(0, i as int).drop_last() =~= pairs@.subrange(0, i - 1));
        }
        assert(pairs@.subrange(0, pairs@.len() as int) =~= pairs@);
        r
    }

    fn find(&self, key: &str) -> (r: Option<usize>)
        requires
            self.wf(),
        ensures
            match r {
                Some(i) => i < self.vars@.len() && self.vars@[i as int].0@ == key@,
                None => !self.named().contains_key(key@),
            },
    {
        let mut i: usize = 0;
        while i < self.vars.len()
            invariant
                self.wf(),
                i <= self.vars@.len(),
                forall|j: int| 0 <= j < i ==> (#[trigger] self.vars@[j]).0@ != key@,
            decreases self.vars@.len() - i,
        {
            if str_eq(self.vars[i].0.as_str(), key) {
                return Some(i);
            }
            i = i + 1;
        }
        None
    }

    /// Sets `key` to `value`, replacing any earlier value.
    pub fn set(&mut self, key: String, value: String)
        requires
            old(self).wf(),
        ensures
            final(self).wf(),
            final(self).named() == old(self).named().insert(key@, value@),
            final(self).positional() == old(self).positional(),
    {
        match self.find(key.as_str()) {
            Some(i) => {
                let ghost k = key@;
                let ghost v = value@;
                self.vars.set(i, (key, value));
                self.model = Ghost(self.model@.insert(k, v));
                assert forall|k2: Seq<char>| #[trigger] self.model@.contains_key(k2) implies exists|j: int|
                    0 <= j < self.vars@.len() && (#[trigger] self.vars@[j]).0@ == k2 by {
                    if k2 != k {
                        let j = choose|j: int| 0 <= j < old(self).vars@.len() && (#[trigger] old(self).vars@[j]).0@ == k2;
                        assert(self.vars@[j] == old(self).vars@[j]);
                    } else {
                        assert(self.vars@[i as int].0@ == k2);
                    }
                }
            },
            None => {
                let ghost k = key@;
                let ghost v = value@;
                self.vars.push((key, value));
                self.model = Ghost(self.model@.insert(k, v));
                let ghost last = self.vars@.len() - 1;
                assert forall|k2: Seq<char>| #[trigger] self.model@.contains_key(k2) implies exists|j: int|
                    0 <= j < self.vars@.len() && (#[trigger] self.vars@[j]).0@ == k2 by {
                    if k2 != k {
                        let j = choose|j: int| 0 <= j < old(self).vars@.len() && (#[trigger] old(self).vars@[j]).0@ == k2;
                        assert(self.vars@[j] == old(self).vars@[j]);
                    } else {
                        assert(self.vars@[last].0@ == k2);
                    }
                }
            },
        }
    }

    /// Removes the variable `key`, if there is one.
    pub fn remove(&mut self, key: &str)
        requires
            old(self).wf(),
        ensures
            final(self).wf(),
            final(self).named() == old(self).named().remove(key@),
            final(self).positional() == old(self).positional(),
    {
        match self.find(key) {
            Some(i) => {
                self.vars.swap_remove(i);
                self.model = Ghost(self.model@.remove(key@));
                let ghost n = old(self).vars@.len() - 1;
                assert forall|j: int| 0 <= j < self.vars@.len() implies #[trigger] self.vars@[j]
                    == old(self).vars@[if j == i { n } else { j }] by {}
                assert forall|k2: Seq<char>| #[trigger] self.model@.contains_key(k2) implies exists|j: int|
                    0 <= j < self.vars@.len() && (#[trigger] self.vars@[j]).0@ == k2 by {
                    let j = choose|j: int| 0 <= j < old(self).vars@.len() && (#[trigger] old(self).vars@[j]).0@ == k2;
                    if j == n {
                        assert(self.vars@[i as int] == old(self).vars@[j]);
                    } else {
                        assert(self.vars@[j] == old(self).vars@[j]);
                    }
                }
                assert forall|a: int, b: int|
                    0 <= a < self.vars@.len() && 0 <= b < self.vars@.len() && a != b
                        implies (#[trigger] self.vars@[a]).0@ != (#[trigger] self.vars@[b]).0@ by {
                    let a2 = if a == i { n } else { a };
                    let b2 = if b == i { n } else { b };
                    assert(self.vars@[a] == old(self).vars@[a2]);
                    assert(self.vars@[b] == old(self).vars@[b2]);
                }
            },
            None => {
                assert(old(self).named().remove(key@) =~= old(self).named());
            },
        }
    }

    /// Replaces the positional parameters.
    pub fn set_positional_args(&mut self, args: Vec<String>)
        requires
            old(self).wf(),
        ensures
            final(self).wf(),
            final(self).named() == old(self).named(),
            final(self).positional() == args@.map_values(|s: String| s@),
    {
        self.positional_args = args;
        assert(self.vars@ == old(self).vars@ && self.model@ == old(self).model@);
    }

    /// A copy of the positional parameters.
    pub fn get_positional_args(&self) -> (r: Vec<String>)
        ensures
            r@.map_values(|s: String| s@) == self.positional(),
    {
        clone_strings(&self.positional_args)
    }

    /// The value of the named variable `key`.
    pub fn get_named(&self, key: &str) -> (r: Option<&String>)
        requires
            self.wf(),
        ensures
            match r {
                Some(v) => self.named().contains_key(key@) && self.named()[key@] == v@,
                None => !self.named().contains_key(key@),
            },
    {
        match self.find(key) {
            Some(i) => Some(&self.vars[i].1),
            None => None,
        }
    }

    /// The value of `key`: positional parameter `N` when `key` is a number
    /// `N` (from one up to the number of parameters), else the named
    /// variable.
    pub fn get(&self, key: &str) -> (r: Option<&String>)
        requires
            self.wf(),
        ensures
            match r {
                Some(v) => self.lookup(key@) == Some(v@),
                None => self.lookup(key@) is None,
            },
    {
        let cs = chars_of(key);
        let n = cs.len();
        let len = self.positional_args.len();
        let mut numeric = n > 0;
        let mut over = false;
        let mut value: usize = 0;
        let mut i: usize = 0;
        while i < n
            invariant
                n == cs@.len(),
                cs@ == key@,
                len == self.positional_args@.len(),
                i <= n,
                numeric == (n > 0 && forall|j: int| 0 <= j < i ==> is_digit(#[trigger] cs@[j])),
                numeric && over ==> digits_value(cs@.subrange(0, i as int)) > len,
                numeric && !over ==> value == digits_value(cs@.subrange(0, i as int)) && value
                    <= len,
            decreases n - i,
        {
            let c = cs[i];
            proof {
                assert(cs@.subrange(0, i + 1).drop_last() =~= cs@.subrange(0, i as int));
            }
            if !is_digit_exec(c) {
                numeric = false;
            } else if numeric && !over {
                let d = (c as u32 - '0' as u32) as u128;
                let next: u128 = value as u128 * 10 + d;
                if next > len as u128 {
                    over = true;
                } else {
                    value = next as usize;
                }
            }
            i = i + 1;
        }
        proof {
            assert(cs@.subrange(0, n as int) =~= key@);
        }
        if numeric && !over && 1 <= value && value <= len {
            return Some(&self.positional_args[value - 1]);
        }
        match self.find(key) {
            Some(i) => Some(&self.vars[i].1),
            None => None,
        }
    }

    /// The named variables as `(name, value)` pairs, each name once: the
    /// environment handed to a child process.
    pub fn to_env_vars(&self) -> (r: Vec<(String, String)>)
        requires
            self.wf(),
        ensures
            forall|i: int, j: int|
                0 <= i < r@.len() && 0 <= j < r@.len() && i != j ==> (#[trigger] r@[i]).0@
                    != (#[trigger] r@[j]).0@,
            forall|i: int| 0 <= i < r@.len() ==> #[trigger] self.named().contains_key(r@[i].0@)
                && self.named()[r@[i].0@] == r@[i].1@,
            forall|k: Seq<char>| #[trigger] self.named().contains_key(k) ==> exists|i: int|
                0 <= i < r@.len() && (#[trigger] r@[i]).0@ == k,
    {
        let mut r: Vec<(String, String)> = Vec::new();
        let mut i: usize = 0;
        while i < self.vars.len()
            invariant
                self.wf(),
                i <= self.vars@.len(),
                r@.len() == i,
                forall|j: int| 0 <= j < i ==> (#[trigger] r@[j]).0@ == self.vars@[j].0@ && r@[j].1@
                    == self.vars@[j].1@,
            decreases self.vars@.len() - i,
        {
            r.push((self.vars[i].0.clone(), self.vars[i].1.clone()));
            i = i + 1;
        }
        assert forall|k: Seq<char>| #[trigger] self.named().contains_key(k) implies exists|j: int|
            0 <= j < r@.len() && (#[trigger] r@[j]).0@ == k by {
            let j = choose|j: int| 0 <= j < self.vars@.len() && (#[trigger] self.vars@[j]).0@ == k;
            assert(r@[j].0@ == k);
        }
        assert forall|a: int, b: int|
            0 <= a < r@.len() && 0 <= b < r@.len() && a != b implies (#[trigger] r@[a]).0@
                != (#[trigger] r@[b]).0@ by {
            assert(self.vars@[a].0@ != self.vars@[b].0@);
        }
        assert forall|a: int| 0 <= a < r@.len() implies #[trigger] self.named().contains_key(r@[a].0@)
            && self.named()[r@[a].0@] == r@[a].1@ by {
            assert(self.vars@[a].0@ == r@[a].0@);
        }
        r
    }

    fn value_of(&self, cs: &Vec<char>, from: usize, to: usize, out: &mut String)
        requires
            self.wf(),
            from <= to <= cs@.len(),
        ensures
            final(out)@ == old(out)@ + or_empty(self.lookup(cs@.subrange(from as int, to as int))),
    {
        let key = string_of(cs, from, to);
        match self.get(key.as_str()) {
            Some(v) => out.append(v.as_str()),
            None => {
                assert(old(out)@ + Seq::<char>::empty() =~= old(out)@);
            },
        }
    }

    /// Replaces each `$1`..`$9` and each `$NAME` in `input` by its value
    /// (empty when unset) in one left-to-right pass; a `$` that no digit or
    /// name character follows stays as it is.
    pub fn expand(&self, input: &str) -> (r: String)
        requires
            self.wf(),
        ensures
            r@ == self.expansion(input@),
            !input@.contains('$') ==> r@ == input@,
    {
        proof {
            if !input@.contains('$') {
                lemma_expand_without_dollar(self.named(), self.positional(), input@);
            }
        }
        let cs = chars_of(input);
        let n = cs.len();
        let mut out = String::new();
        let mut i: usize = 0;
        proof {
            assert(cs@.subrange(0, n as int) =~= cs@);
            assert(out@ + self.expansion(cs@.subrange(0, n as int)) =~= self.expansion(cs@));
        }
        while i < n
            invariant
                self.wf(),
                n == cs@.len(),
                cs@ == input@,
                i <= n,
                out@ + self.expansion(cs@.subrange(i as int, n as int)) == self.expansion(cs@),
            decreases n - i,
        {
            let ghost t = cs@.subrange(i as int, n as int);
            let ghost before = out@;
            let c = cs[i];
            if c != '$' {
                push_char(&mut out, c);
                proof {
                    assert(t.drop_first() =~= cs@.subrange(i + 1, n as int));
                    assert(out@ + self.expansion(cs@.subrange(i + 1, n as int)) =~= before
                        + self.expansion(t));
                }
                i = i + 1;
            } else if i + 1 < n && is_digit_exec(cs[i + 1]) {
                self.value_of(&cs, i + 1, i + 2, &mut out);
                proof {
                    assert(t.subrange(1, 2) =~= cs@.subrange(i + 1, i + 2));
                    assert(t.subrange(2, t.len() as int) =~= cs@.subrange(i + 2, n as int));
                    assert(out@ + self.expansion(cs@.subrange(i + 2, n as int)) =~= before
                        + self.expansion(t));
                }
                i = i + 2;
            } else {
                let mut j = i + 1;
                while j < n && is_name_char_exec(cs[j])
                    invariant
                        i + 1 <= j <= n,
                        n == cs@.len(),
                        forall|k: int| i + 1 <= k < j ==> is_name_char(#[trigger] cs@[k]),
                    decreases n - j,
                {
                    j = j + 1;
                }
                proof {
                    lemma_name_run(cs@, i + 1, j as int);
                    assert(t.drop_first() =~= cs@.subrange(i + 1, n as int));
                }
                if j == i + 1 {
                    push_char(&mut out, '$');
                    proof {
                        assert(out@ + self.expansion(cs@.subrange(i + 1, n as int)) =~= before
                            + self.expansion(t));
                    }
                    i = i + 1;
                } else {
                    self.value_of(&cs, i + 1, j, &mut out);
                    proof {
                        assert(t.subrange(1, 1 + (j - i - 1)) =~= cs@.subrange(i + 1, j as int));
                        assert(t.subrange(1 + (j - i - 1), t.len() as int) =~= cs@.subrange(
                            j as int,
                            n as int,
                        ));
                        assert(out@ + self.expansion(cs@.subrange(j as int, n as int)) =~= before
                            + self.expansion(t));
                    }
                    i = j;
                }
            }
        }
        proof {
            assert(cs@.subrange(n as int, n as int) =~= Seq::<char>::empty());
            assert(out@ =~= out@ + self.expansion(cs@.subrange(n as int, n as int)));
        }
        out
    }

    /// A copy of the store.
    pub fn snapshot(&self) -> (r: Variables)
        requires
            self.wf(),
        ensures
            r.wf(),
            r.named() == self.named(),
            r.positional() == self.positional(),
    {
        let mut vars: Vec<(String, String)> = Vec::new();
        let mut i: usize = 0;
        while i < self.vars.len()
            invariant
                i <= self.vars@.len(),
                vars@.len() == i,
                forall|j: int| 0 <= j < i ==> (#[trigger] vars@[j]).0@ == self.vars@[j].0@ && vars@[j].1@
                    == self.vars@[j].1@,
            decreases self.vars@.len() - i,
        {
            vars.push((self.vars[i].0.clone(), self.vars[i].1.clone()));
            i = i + 1;
        }
        let r = Variables { vars, positional_args: clone_strings(&self.positional_args), model: Ghost(self.model@) };
        assert forall|k: Seq<char>| #[trigger] r.model@.contains_key(k) implies exists|j: int|
            0 <= j < r.vars@.len() && (#[trigger] r.vars@[j]).0@ == k by {
            let j = choose|j: int| 0 <= j < self.vars@.len() && (#[trigger] self.vars@[j]).0@ == k;
            assert(r.vars@[j].0@ == k);
        }
        assert forall|a: int, b: int|
            0 <= a < r.vars@.len() && 0 <= b < r.vars@.len() && a != b implies (#[trigger] r.vars@[a]).0@
                != (#[trigger] r.vars@[b]).0@ by {
            assert(self.vars@[a].0@ != self.vars@[b].0@);
        }
        assert forall|a: int| 0 <= a < r.vars@.len() implies r.model@.contains_key(
            (#[trigger] r.vars@[a]).0@,
        ) && r.model@[r.vars@[a].0@] == r.vars@[a].1@ by {
            assert(self.vars@[a].0@ == r.vars@[a].0@);
        }
        r
    }

    /// The value of a word as written on a command line: quotes and
    /// escaping backslashes removed, `$` expanded except where single
    /// quotes or a backslash protect it.
    pub fn expand_word(&self, word: &str) -> (r: String)
        requires
            self.wf(),
        ensures
            r@ == self.word_value(word@),
    {
        let cs = chars_of(word);
        let n = cs.len();
        let mut out = String::new();
        let mut q = Quoting::Plain;
        let mut i: usize = 0;
        proof {
            assert(cs@.subrange(0, n as int) =~= cs@);
            assert(out@ + self.word_value(cs@.subrange(0, n as int)) =~= self.word_value(cs@));
        }
        while i < n
            invariant
                self.wf(),
                n == cs@.len(),
                cs@ == word@,
                i <= n,
                out@ + word_expansion(self.named(), self.positional(), cs@.subrange(i as int, n as int), q)
                    == self.word_value(cs@),
            decreases n - i,
        {
            let ghost t = cs@.subrange(i as int, n as int);
            let ghost before = out@;
            let ghost q0 = q;
            let c = cs[i];
            proof {
                assert(t.drop_first() =~= cs@.subrange(i + 1, n as int));
            }
            let literal = match q {
                Quoting::Single => c != '\'',
                Quoting::Escape | Quoting::DoubleEscape => true,
                _ => false,
            };
            if literal {
                push_char(&mut out, c);
                q = match q {
                    Quoting::DoubleEscape => Quoting::Double,
                    Quoting::Escape => Quoting::Plain,
                    other => other,
                };
                i = i + 1;
            } else if q == Quoting::Single {
                q = Quoting::Plain;
                i = i + 1;
            } else if q == Quoting::Plain && c == '\'' {
                q = Quoting::Single;
                i = i + 1;
            } else if c == '"' {
                q = if q == Quoting::Plain { Quoting::Double } else { Quoting::Plain };
                i = i + 1;
            } else if c == '\\' {
                q = if q == Quoting::Plain { Quoting::Escape } else { Quoting::DoubleEscape };
                i = i + 1;
            } else if c != '$' {
                push_char(&mut out, c);
                i = i + 1;
            } else if i + 1 < n && is_digit_exec(cs[i + 1]) {
                self.value_of(&cs, i + 1, i + 2, &mut out);
                proof {
                    assert(t.subrange(1, 2) =~= cs@.subrange(i + 1, i + 2));
                    assert(t.subrange(2, t.len() as int) =~= cs@.subrange(i + 2, n as int));
                }
                i = i + 2;
            } else {
                let mut j = i + 1;
                while j < n && is_name_char_exec(cs[j])
                    invariant
                        i + 1 <= j <= n,
                        n == cs@.len(),
                        forall|k: int| i + 1 <= k < j ==> is_name_char(#[trigger] cs@[k]),
                    decreases n - j,
                {
                    j = j + 1;
                }
                proof {
                    lemma_name_run(cs@, i + 1, j as int);
                }
                if j == i + 1 {
                    push_char(&mut out, '$');
                    i = i + 1;
                } else {
                    self.value_of(&cs, i + 1, j, &mut out);
                    proof {
                        assert(t.subrange(1, 1 + (j - i - 1)) =~= cs@.subrange(i + 1, j as int));
                        assert(t.subrange(1 + (j - i - 1), t.len() as int) =~= cs@.subrange(
                            j as int,
                            n as int,
                        ));
                    }
                    i = j;
                }
            }
            proof {
                assert(out@ + word_expansion(self.named(), self.positional(), cs@.subrange(i as int, n as int), q)
                    =~= before + word_expansion(self.named(), self.positional(), t, q0));
            }
        }
        proof {
            assert(cs@.subrange(n as int, n as int) =~= Seq::<char>::empty());
            assert(out@ =~= out@ + word_expansion(self.named(), self.positional(), cs@.subrange(n as int, n as int), q));
        }
        out
    }
}

} // verus!
