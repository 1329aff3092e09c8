//! The variable expander: substitutes `${NAME}` and `$NAME` references and
//! the `$?` exit-status marker in one raw input line, copying single-quoted
//! regions verbatim.

use vstd::prelude::*;

use crate::env_store::EnvStore;
use crate::text::{
    chars_to_string, dec_chars, dec_digits, is_name_char, is_name_start, name_char, name_start,
    push_str_chars, str_to_chars,
};

verus! {

/// Index just past the run of name characters that starts at `i`.
pub open spec fn name_end(s: Seq<char>, i: int) -> int
    decreases s.len() - i,
{
    if i < 0 || i >= s.len() || !is_name_char(s[i]) {
        i
    } else {
        name_end(s, i + 1)
    }
}

/// Bounds and characterization of [`name_end`].
pub proof fn lemma_name_end(s: Seq<char>, i: int)
    requires
        0 <= i <= s.len(),
    ensures
        i <= name_end(s, i) <= s.len(),
        forall|j: int| i <= j < name_end(s, i) ==> is_name_char(#[trigger] s[j]),
        name_end(s, i) < s.len() ==> !is_name_char(s[name_end(s, i)]),
    decreases s.len() - i,
{
    if i < s.len() && is_name_char(s[i]) {
        lemma_name_end(s, i + 1);
    }
}

/// `name_end` lands exactly at the end of a run of name characters.
pub proof fn lemma_name_end_run(s: Seq<char>, i: int, j: int)
    requires
        0 <= i <= j <= s.len(),
        forall|t: int| i <= t < j ==> is_name_char(#[trigger] s[t]),
        j == s.len() || !is_name_char(s[j]),
    ensures
        name_end(s, i) == j,
    decreases j - i,
{
    if i < j {
        lemma_name_end_run(s, i + 1, j);
    }
}

/// The value an unbound name expands to is the empty string.
pub open spec fn lookup(env: Map<Seq<char>, Seq<char>>, name: Seq<char>) -> Seq<char> {
    if env.dom().contains(name) {
        env[name]
    } else {
        Seq::empty()
    }
}

/// What expansion produces from position `i` on, given the quote state
/// `in_q`. Single quotes toggle the state and are copied; outside quotes,
/// `$` introduces a braced reference, a simple reference, or the decimal
/// rendering of the exit status (for `$?`), and is otherwise copied
/// literally.
pub open spec fn expand_from(
    s: Seq<char>,
    i: int,
    env: Map<Seq<char>, Seq<char>>,
    status: nat,
    in_q: bool,
) -> Seq<char>
    decreases s.len() - i,
    via expand_from_dec
{
    if i < 0 || i >= s.len() {
        Seq::empty()
    } else {
        let c = s[i];
        if c == '\'' {
            seq!['\''] + expand_from(s, i + 1, env, status, !in_q)
        } else if c == '$' && !in_q && i + 1 < s.len() {
            let nc = s[i + 1];
            if nc == '{' {
                let j = name_end(s, i + 2);
                let k = if j < s.len() && s[j] == '}' {
                    j + 1
                } else {
                    j
                };
                lookup(env, s.subrange(i + 2, j)) + expand_from(s, k, env, status, in_q)
            } else if is_name_start(nc) {
                let j = name_end(s, i + 1);
                lookup(env, s.subrange(i + 1, j)) + expand_from(s, j, env, status, in_q)
            } else if nc == '?' {
                dec_digits(status) + expand_from(s, i + 2, env, status, in_q)
            } else {
                seq!['$'] + expand_from(s, i + 1, env, status, in_q)
            }
        } else {
            seq![c] + expand_from(s, i + 1, env, status, in_q)
        }
    }
}

#[via_fn]
proof fn expand_from_dec(s: Seq<char>, i: int, env: Map<Seq<char>, Seq<char>>, status: nat, in_q: bool) {
    if 0 <= i < s.len() {
        if s[i] == '$' && !in_q && i + 1 < s.len() {
            if s[i + 1] == '{' {
                lemma_name_end(s, i + 2);
            } else if is_name_start(s[i + 1]) {
                lemma_name_end(s, i + 1);
            }
        }
    }
}

/// The whole line expanded: from the start, outside quotes.
pub open spec fn expand_spec(s: Seq<char>, env: Map<Seq<char>, Seq<char>>, status: nat) -> Seq<char> {
    expand_from(s, 0, env, status, false)
}

/// Read a braced variable name beginning at `start` (just past `${`):
/// the run of name characters, with a closing `}` consumed if present.
/// Returns the name and the index expansion resumes at.
pub fn extract_var_name_braced(chars: &Vec<char>, start: usize) -> (r: (String, usize))
    requires
        start <= chars@.len(),
    ensures
        r.0@ == chars@.subrange(start as int, name_end(chars@, start as int)),
        r.1 == if name_end(chars@, start as int) < chars@.len() && chars@[name_end(
            chars@,
            start as int,
        )] == '}' {
            name_end(chars@, start as int) + 1
        } else {
            name_end(chars@, start as int)
        },
        start <= r.1 <= chars@.len(),
{
    let n = chars.len();
    let mut i = start;
    let mut name: Vec<char> = Vec::new();
    while i < n && name_char(chars[i])
        invariant
            start <= i <= n,
            n == chars@.len(),
            name@ == chars@.subrange(start as int, i as int),
            forall|j: int| start <= j < i ==> is_name_char(#[trigger] chars@[j]),
        decreases n - i,
    {
        name.push(chars[i]);
        assert(name@ =~= chars@.subrange(start as int, i + 1));
        i = i + 1;
    }
    proof {
        lemma_name_end_run(chars@, start as int, i as int);
    }
    let s = chars_to_string(&name);
    if i < n && chars[i] == '}' {
        (s, i + 1)
    } else {
        (s, i)
    }
}

/// Read a simple variable name beginning at `start` (just past `$`): the
/// longest run of name characters. Returns the name and the index expansion
/// resumes at.
pub fn extract_var_name_simple(chars: &Vec<char>, start: usize) -> (r: (String, usize))
    requires
        start <= chars@.len(),
    ensures
        r.0@ == chars@.subrange(start as int, name_end(chars@, start as int)),
        r.1 == name_end(chars@, start as int),
        start <= r.1 <= chars@.len(),
{
    let n = chars.len();
    let mut i = start;
    let mut name: Vec<char> = Vec::new();
    while i < n && name_char(chars[i])
        invariant
            start <= i <= n,
            n == chars@.len(),
            name@ == chars@.subrange(start as int, i as int),
            forall|j: int| start <= j < i ==> is_name_char(#[trigger] chars@[j]),
        decreases n - i,
    {
        name.push(chars[i]);
        assert(name@ =~= chars@.subrange(start as int, i + 1));
        i = i + 1;
    }
    proof {
        lemma_name_end_run(chars@, start as int, i as int);
    }
    (chars_to_string(&name), i)
}

/// Expand variable references in `input` against `env`, with `status` as the
/// current exit status (for `$?`).
pub fn expand_variables(input: &str, env: &EnvStore, status: u32) -> (r: String)
    requires
        env.wf(),
    ensures
        r@ == expand_spec(input@, env@, status as nat),
{
    let chars = str_to_chars(input);
    let n = chars.len();
    let mut out: Vec<char> = Vec::new();
    let mut i: usize = 0;
    let mut in_q: bool = false;
    while i < n
        invariant
            env.wf(),
            chars@ == input@,
            n == chars@.len(),
            i <= n,
            expand_spec(input@, env@, status as nat) == out@ + expand_from(
                chars@,
                i as int,
                env@,
                status as nat,
                in_q,
            ),
        decreases n - i,
    {
        let ghost out0: Seq<char> = out@;
        let ghost rest: Seq<char> = expand_from(chars@, i as int, env@, status as nat, in_q);
        let c = chars[i];
        if c == '\'' {
            out.push(c);
            in_q = !in_q;
            i = i + 1;
            proof {
                let tail = expand_from(chars@, i as int, env@, status as nat, in_q);
                assert(rest == seq!['\''] + tail);
                assert(out0 + (seq!['\''] + tail) =~= (out0 + seq!['\'']) + tail);
                assert(out@ =~= out0 + seq!['\'']);
            }
        } else if c == '$' && !in_q && i + 1 < n {
            let nc = chars[i + 1];
            if nc == '{' {
                proof {
                    lemma_name_end(chars@, i + 2);
                }
                let (name, next) = extract_var_name_braced(&chars, i + 2);
                let ghost val: Seq<char> = lookup(env@, name@);
                match env.get(name.as_str()) {
                    Some(v) => {
                        push_str_chars(&mut out, v.as_str());
                    },
                    None => {},
                }
                proof {
                    let tail = expand_from(chars@, next as int, env@, status as nat, in_q);
                    assert(rest == val + tail);
                    assert(out0 + (val + tail) =~= (out0 + val) + tail);
                    assert(out@ =~= out0 + val);
                }
                i = next;
            } else if name_start(nc) {
                let (name, next) = extract_var_name_simple(&chars, i + 1);
                let ghost val: Seq<char> = lookup(env@, name@);
                match env.get(name.as_str()) {
                    Some(v) => {
                        push_str_chars(&mut out, v.as_str());
                    },
                    None => {},
                }
                proof {
                    lemma_name_end(chars@, i + 1);
                    let tail = expand_from(chars@, next as int, env@, status as nat, in_q);
                    assert(rest == val + tail);
                    assert(out0 + (val + tail) =~= (out0 + val) + tail);
                    assert(out@ =~= out0 + val);
                }
                i = next;
            } else if nc == '?' {
                let mut digits = dec_chars(status);
                let ghost val: Seq<char> = digits@;
                out.append(&mut digits);
                i = i + 2;
                proof {
                    let tail = expand_from(chars@, i as int, env@, status as nat, in_q);
                    assert(rest == val + tail);
                    assert(out0 + (val + tail) =~= (out0 + val) + tail);
                }
            } else {
                out.push('$');
                i = i + 1;
                proof {
                    let tail = expand_from(chars@, i as int, env@, status as nat, in_q);
                    assert(rest == seq!['$'] + tail);
                    assert(out0 + (seq!['$'] + tail) =~= (out0 + seq!['$']) + tail);
                    assert(out@ =~= out0 + seq!['$']);
                }
            }
        } else {
            out.push(c);
            i = i + 1;
            proof {
                let tail = expand_from(chars@, i as int, env@, status as nat, in_q);
                assert(rest == seq![c] + tail);
                assert(out0 + (seq![c] + tail) =~= (out0 + seq![c]) + tail);
                assert(out@ =~= out0 + seq![c]);
            }
        }
    }
    proof {
        assert(out@ + expand_from(chars@, i as int, env@, status as nat, in_q) =~= out@);
    }
    chars_to_string(&out)
}

/// Expansion copies every character when nothing from position `i` on is a
/// dollar sign, whatever the quote state does.
proof fn lemma_expand_copies(
    s: Seq<char>,
    i: int,
    env: Map<Seq<char>, Seq<char>>,
    status: nat,
    in_q: bool,
)
    requires
        0 <= i <= s.len(),
        forall|j: int| i <= j < s.len() ==> #[trigger] s[j] != '$',
    ensures
        expand_from(s, i, env, status, in_q) == s.subrange(i, s.len() as int),
    decreases s.len() - i,
{
    if i < s.len() {
        let q2 = if s[i] == '\'' {
            !in_q
        } else {
            in_q
        };
        lemma_expand_copies(s, i + 1, env, status, q2);
        assert(seq![s[i]] + s.subrange(i + 1, s.len() as int) =~= s.subrange(i, s.len() as int));
    } else {
        assert(s.subrange(i, s.len() as int) =~= Seq::<char>::empty());
    }
}

/// Expansion is the identity on input that contains no dollar sign.
pub proof fn lemma_expand_no_dollar(s: Seq<char>, env: Map<Seq<char>, Seq<char>>, status: nat)
    requires
        forall|j: int| 0 <= j < s.len() ==> #[trigger] s[j] != '$',
    ensures
        expand_spec(s, env, status) == s,
{
    lemma_expand_copies(s, 0, env, status, false);
    assert(s.subrange(0, s.len() as int) =~= s);
}

/// Inside single quotes, every character up to the closing quote is copied
/// verbatim, and expansion resumes outside quotes after it.
proof fn lemma_quoted_until(
    s: Seq<char>,
    i: int,
    m: int,
    env: Map<Seq<char>, Seq<char>>,
    status: nat,
)
    requires
        0 <= i <= m < s.len(),
        s[m] == '\'',
        forall|j: int| i <= j < m ==> #[trigger] s[j] != '\'',
    ensures
        expand_from(s, i, env, status, true) == s.subrange(i, m) + seq!['\''] + expand_from(
            s,
            m + 1,
            env,
            status,
            false,
        ),
    decreases m - i,
{
    let tail = expand_from(s, m + 1, env, status, false);
    if i == m {
        assert(expand_from(s, i, env, status, true) == seq!['\''] + tail);
        assert(s.subrange(i, m) =~= Seq::<char>::empty());
        assert(s.subrange(i, m) + seq!['\''] + tail =~= seq!['\''] + tail);
    } else {
        lemma_quoted_until(s, i + 1, m, env, status);
        assert(expand_from(s, i, env, status, true) == seq![s[i]] + expand_from(
            s,
            i + 1,
            env,
            status,
            true,
        ));
        assert(seq![s[i]] + (s.subrange(i + 1, m) + seq!['\''] + tail) =~= s.subrange(i, m)
            + seq!['\''] + tail);
    }
}

/// Expansion never substitutes inside single quotes: a quoted region is
/// copied verbatim, quotes retained.
pub proof fn lemma_expand_quoted_literal(
    w: Seq<char>,
    env: Map<Seq<char>, Seq<char>>,
    status: nat,
)
    requires
        forall|j: int| 0 <= j < w.len() ==> #[trigger] w[j] != '\'',
    ensures
        expand_spec(seq!['\''] + w + seq!['\''], env, status) == seq!['\''] + w + seq!['\''],
{
    let s = seq!['\''] + w + seq!['\''];
    let m = s.len() - 1;
    assert(s[0] == '\'');
    assert(s[m] == '\'');
    assert(forall|j: int| 1 <= j < m ==> #[trigger] s[j] == w[j - 1]);
    assert(expand_from(s, 0, env, status, false) == seq!['\''] + expand_from(
        s,
        1,
        env,
        status,
        true,
    ));
    lemma_quoted_until(s, 1, m, env, status);
    assert(expand_from(s, m + 1, env, status, false) == Seq::<char>::empty());
    assert(s.subrange(1, m) =~= w);
    assert(seq!['\''] + (s.subrange(1, m) + seq!['\''] + Seq::<char>::empty()) =~= s);
}

/// A braced reference to a bound variable, standing alone, expands to
/// exactly the variable's value.
pub proof fn lemma_expand_braced_ref(
    name: Seq<char>,
    env: Map<Seq<char>, Seq<char>>,
    status: nat,
)
    requires
        name.len() > 0,
        forall|j: int| 0 <= j < name.len() ==> is_name_char(#[trigger] name[j]),
        env.dom().contains(name),
    ensures
        expand_spec(seq!['$', '{'] + name + seq!['}'], env, status) == env[name],
{
    let s = seq!['$', '{'] + name + seq!['}'];
    let e = 2 + name.len() as int;
    assert(s[0] == '$');
    assert(s[1] == '{');
    assert(forall|j: int| 2 <= j < e ==> #[trigger] s[j] == name[j - 2]);
    assert(s[e] == '}');
    assert(!is_name_char('}'));
    lemma_name_end_run(s, 2, e);
    assert(s.subrange(2, e) =~= name);
    assert(expand_from(s, e + 1, env, status, false) == Seq::<char>::empty());
    assert(expand_from(s, 0, env, status, false) == lookup(env, name) + Seq::<char>::empty());
    assert(env[name] + Seq::<char>::empty() =~= env[name]);
}

/// A simple reference to a bound variable at the end of the input expands to
/// exactly the variable's value.
pub proof fn lemma_expand_simple_ref(
    name: Seq<char>,
    env: Map<Seq<char>, Seq<char>>,
    status: nat,
)
    requires
        name.len() > 0,
        is_name_start(name[0]),
        forall|j: int| 0 <= j < name.len() ==> is_name_char(#[trigger] name[j]),
        env.dom().contains(name),
    ensures
        expand_spec(seq!['$'] + name, env, status) == env[name],
{
    let s = seq!['$'] + name;
    let e = 1 + name.len() as int;
    assert(s[0] == '$');
    assert(forall|j: int| 1 <= j < e ==> #[trigger] s[j] == name[j - 1]);
    assert(s[1] == name[0]);
    assert(!is_name_start('{'));
    lemma_name_end_run(s, 1, e);
    assert(s.subrange(1, e) =~= name);
    assert(expand_from(s, e, env, status, false) == Seq::<char>::empty());
    assert(expand_from(s, 0, env, status, false) == lookup(env, name) + Seq::<char>::empty());
    assert(env[name] + Seq::<char>::empty() =~= env[name]);
}

/// A simple reference to a bound variable followed by a whitespace character
/// expands to the variable's value followed by that character.
pub proof fn lemma_expand_simple_ref_space(
    name: Seq<char>,
    c: char,
    env: Map<Seq<char>, Seq<char>>,
    status: nat,
)
    requires
        name.len() > 0,
        is_name_start(name[0]),
        forall|j: int| 0 <= j < name.len() ==> is_name_char(#[trigger] name[j]),
        crate::text::is_space(c),
        env.dom().contains(name),
    ensures
        expand_spec(seq!['$'] + name + seq![c], env, status) == env[name] + seq![c],
{
    let s = seq!['$'] + name + seq![c];
    let e = 1 + name.len() as int;
    assert(s[0] == '$');
    assert(forall|j: int| 1 <= j < e ==> #[trigger] s[j] == name[j - 1]);
    assert(s[1] == name[0]);
    assert(s[e] == c);
    assert(!is_name_char(' ') && !is_name_char('\t') && !is_name_char('\n') && !is_name_char('\r'))
       ;
    assert(!is_name_start('{'));
    lemma_name_end_run(s, 1, e);
    assert(s.subrange(1, e) =~= name);
    assert(expand_from(s, e, env, status, false) == seq![c] + expand_from(
        s,
        e + 1,
        env,
        status,
        false,
    ));
    assert(expand_from(s, e + 1, env, status, false) == Seq::<char>::empty());
    assert(expand_from(s, 0, env, status, false) == lookup(env, name) + (seq![c]
        + Seq::<char>::empty()));
    assert(env[name] + (seq![c] + Seq::<char>::empty()) =~= env[name] + seq![c]);
}

} // verus!
