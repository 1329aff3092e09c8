//! The command dispatcher: resolves the executable name against the closed
//! built-in table, carries the built-ins out against the environment store,
//! and asks the caller for the two things it cannot do itself: changing the
//! process working directory and spawning an external process.

use vstd::prelude::*;

use crate::env_store::EnvStore;
use crate::expand::expand_spec;
use crate::text::{chars_range, chars_to_string, push_str_chars, str_eq, str_to_chars};
use crate::tokenize::{tokenize, tokens, views_of, ParsedCommand};

verus! {

/// The closed set of command kinds the dispatcher distinguishes.
#[derive(Clone, Copy, Debug, PartialEq, Eq, Structural)]
pub enum BuiltinKind {
    Export,
    Exit,
    ChangeDirectory,
    Unset,
    PrintWorkingDirectory,
    Echo,
    External,
}

/// The kind a given executable name resolves to: matched exactly,
/// case-sensitively, with no abbreviation.
pub open spec fn builtin_of(name: Seq<char>) -> BuiltinKind {
    if name == "export"@ {
        BuiltinKind::Export
    } else if name == "exit"@ {
        BuiltinKind::Exit
    } else if name == "cd"@ {
        BuiltinKind::ChangeDirectory
    } else if name == "unset"@ {
        BuiltinKind::Unset
    } else if name == "pwd"@ {
        BuiltinKind::PrintWorkingDirectory
    } else if name == "echo"@ {
        BuiltinKind::Echo
    } else {
        BuiltinKind::External
    }
}

/// Resolve an executable name against the built-in table.
pub fn lookup_builtin(name: &str) -> (k: BuiltinKind)
    ensures
        k == builtin_of(name@),
{
    if str_eq(name, "export") {
        BuiltinKind::Export
    } else if str_eq(name, "exit") {
        BuiltinKind::Exit
    } else if str_eq(name, "cd") {
        BuiltinKind::ChangeDirectory
    } else if str_eq(name, "unset") {
        BuiltinKind::Unset
    } else if str_eq(name, "pwd") {
        BuiltinKind::PrintWorkingDirectory
    } else if str_eq(name, "echo") {
        BuiltinKind::Echo
    } else {
        BuiltinKind::External
    }
}

/// The interpreter state one session carries: the environment store and the
/// exit status of the most recently completed command.
pub struct ShellState {
    pub env: EnvStore,
    pub exit_status: u32,
}

impl ShellState {
    /// Well-formed: the store's keys are unique.
    pub open spec fn wf(&self) -> bool {
        self.env.wf()
    }
}

/// Index of the first `=` in `s` at or after `i`, or the length if none.
pub open spec fn eq_end(s: Seq<char>, i: int) -> int
    decreases s.len() - i,
{
    if i < 0 || i >= s.len() || s[i] == '=' {
        i
    } else {
        eq_end(s, i + 1)
    }
}

/// `eq_end` lands exactly on the first `=`.
pub proof fn lemma_eq_end_run(s: Seq<char>, i: int, j: int)
    requires
        0 <= i <= j <= s.len(),
        forall|t: int| i <= t < j ==> #[trigger] s[t] != '=',
        j == s.len() || s[j] == '=',
    ensures
        eq_end(s, i) == j,
    decreases j - i,
{
    if i < j {
        lemma_eq_end_run(s, i + 1, j);
    }
}

/// The store after one `export` argument: an argument containing `=` binds
/// the part before the first `=` to the part after it; one without `=` is
/// ignored.
pub open spec fn export_set(m: Map<Seq<char>, Seq<char>>, arg: Seq<char>) -> Map<
    Seq<char>,
    Seq<char>,
> {
    let e = eq_end(arg, 0);
    if e < arg.len() {
        m.insert(arg.subrange(0, e), arg.subrange(e + 1, arg.len() as int))
    } else {
        m
    }
}

/// The store after all `export` arguments, applied left to right.
pub open spec fn export_apply(m: Map<Seq<char>, Seq<char>>, args: Seq<Seq<char>>) -> Map<
    Seq<char>,
    Seq<char>,
>
    decreases args.len(),
{
    if args.len() == 0 {
        m
    } else {
        export_apply(export_set(m, args[0]), args.drop_first())
    }
}

proof fn lemma_export_apply_push(m: Map<Seq<char>, Seq<char>>, args: Seq<Seq<char>>, x: Seq<char>)
    ensures
        export_apply(m, args.push(x)) == export_set(export_apply(m, args), x),
    decreases args.len(),
{
    if args.len() == 0 {
        assert(args.push(x).drop_first() =~= Seq::<Seq<char>>::empty());
        assert(args.push(x)[0] == x);
        assert(export_apply(m, args.push(x)) == export_apply(
            export_set(m, x),
            args.push(x).drop_first(),
        ));
        assert(export_apply(export_set(m, x), Seq::<Seq<char>>::empty()) == export_set(m, x));
    } else {
        assert(args.push(x)[0] == args[0]);
        assert(args.push(x).drop_first() =~= args.drop_first().push(x));
        assert(export_apply(m, args.push(x)) == export_apply(
            export_set(m, args[0]),
            args.drop_first().push(x),
        ));
        lemma_export_apply_push(export_set(m, args[0]), args.drop_first(), x);
        assert(export_apply(m, args) == export_apply(export_set(m, args[0]), args.drop_first()));
    }
}

/// The store after `unset`, each named argument removed, left to right.
pub open spec fn unset_apply(m: Map<Seq<char>, Seq<char>>, args: Seq<Seq<char>>) -> Map<
    Seq<char>,
    Seq<char>,
>
    decreases args.len(),
{
    if args.len() == 0 {
        m
    } else {
        unset_apply(m.remove(args[0]), args.drop_first())
    }
}

proof fn lemma_unset_apply_push(m: Map<Seq<char>, Seq<char>>, args: Seq<Seq<char>>, x: Seq<char>)
    ensures
        unset_apply(m, args.push(x)) == unset_apply(m, args).remove(x),
    decreases args.len(),
{
    if args.len() == 0 {
        assert(args.push(x).drop_first() =~= Seq::<Seq<char>>::empty());
        assert(args.push(x)[0] == x);
        assert(unset_apply(m, args.push(x)) == unset_apply(
            m.remove(x),
            args.push(x).drop_first(),
        ));
        assert(unset_apply(m.remove(x), Seq::<Seq<char>>::empty()) == m.remove(x));
    } else {
        assert(args.push(x)[0] == args[0]);
        assert(args.push(x).drop_first() =~= args.drop_first().push(x));
        assert(unset_apply(m, args.push(x)) == unset_apply(
            m.remove(args[0]),
            args.drop_first().push(x),
        ));
        lemma_unset_apply_push(m.remove(args[0]), args.drop_first(), x);
        assert(unset_apply(m, args) == unset_apply(m.remove(args[0]), args.drop_first()));
    }
}

/// The display line for one pair: `name='value'`.
pub open spec fn export_line(k: Seq<char>, v: Seq<char>) -> Seq<char> {
    k + seq!['=', '\''] + v + seq!['\'']
}

/// The lines `export` with no arguments prints, one per stored pair, in the
/// store's own order.
pub open spec fn export_listing(pairs: Seq<(Seq<char>, Seq<char>)>) -> Seq<Seq<char>> {
    pairs.map_values(|p: (Seq<char>, Seq<char>)| export_line(p.0, p.1))
}

/// A bound variable appears in the `export` listing, paired with its value.
pub proof fn lemma_listing_has_binding(env: EnvStore, k: Seq<char>)
    requires
        env.wf(),
        env@.dom().contains(k),
    ensures
        exists|i: int|
            0 <= i < export_listing(env.pairs()).len() && #[trigger] export_listing(env.pairs())[i]
                == export_line(k, env@[k]),
{
    env.lemma_pairs_view();
    let i = choose|i: int| 0 <= i < env.pairs().len() && (#[trigger] env.pairs()[i]).0 == k;
    assert(env@[k] == env.pairs()[i].1);
    assert(export_listing(env.pairs())[i] == export_line(k, env@[k]));
}

/// An unbound variable is named by no stored pair, so no `export` listing
/// line is derived from it.
pub proof fn lemma_listing_no_binding(env: EnvStore, k: Seq<char>)
    requires
        env.wf(),
        !env@.dom().contains(k),
    ensures
        forall|i: int| 0 <= i < env.pairs().len() ==> (#[trigger] env.pairs()[i]).0 != k,
{
    env.lemma_pairs_view();
    assert forall|i: int| 0 <= i < env.pairs().len() implies (#[trigger] env.pairs()[i]).0 != k by {
        if env.pairs()[i].0 == k {
            assert(env@.dom().contains(k));
        }
    }
}

/// The arguments of `echo`, joined by single spaces.
pub open spec fn join_spaces(ws: Seq<Seq<char>>) -> Seq<char>
    decreases ws.len(),
{
    if ws.len() == 0 {
        Seq::empty()
    } else if ws.len() == 1 {
        ws[0]
    } else {
        ws[0] + seq![' '] + join_spaces(ws.drop_first())
    }
}

proof fn lemma_join_push(ws: Seq<Seq<char>>, x: Seq<char>)
    ensures
        join_spaces(ws.push(x)) == if ws.len() == 0 {
            x
        } else {
            join_spaces(ws) + seq![' '] + x
        },
    decreases ws.len(),
{
    if ws.len() == 0 {
        assert(ws.push(x).len() == 1);
        assert(ws.push(x)[0] == x);
    } else {
        assert(ws.push(x)[0] == ws[0]);
        assert(ws.push(x).drop_first() =~= ws.drop_first().push(x));
        lemma_join_push(ws.drop_first(), x);
        if ws.len() > 1 {
            assert(ws[0] + seq![' '] + (join_spaces(ws.drop_first()) + seq![' '] + x) =~= (ws[0]
                + seq![' '] + join_spaces(ws.drop_first())) + seq![' '] + x);
        }
    }
}

/// The requested target of `cd`: the first argument, else the store's
/// `HOME` value, else the root directory.
pub open spec fn cd_target_spec(args: Seq<Seq<char>>, env: Map<Seq<char>, Seq<char>>) -> Seq<
    char,
> {
    if args.len() > 0 {
        args[0]
    } else if env.dom().contains("HOME"@) {
        env["HOME"@]
    } else {
        "/"@
    }
}

/// What the caller must do after `dispatch` returns: nothing further, change
/// the process working directory (then report back through `apply_chdir`),
/// spawn the external command (then report back through `apply_spawn`), or
/// end the session.
pub enum Action {
    Done,
    Chdir { target: String },
    Spawn,
    Terminate,
}

/// What one dispatched command produced: lines for standard output, and the
/// action the caller still owes.
pub struct DispatchOutcome {
    pub output: Vec<String>,
    pub action: Action,
}

/// Everything `dispatch` promises: how the state after relates to the state
/// before, and what the outcome holds, by the kind of the executable name.
pub open spec fn dispatch_spec(
    cmd: ParsedCommand,
    pre: ShellState,
    post: ShellState,
    cwd: Seq<char>,
    r: DispatchOutcome,
) -> bool {
    match builtin_of(cmd.exe@) {
        BuiltinKind::Export => if cmd.args@.len() == 0 {
            &&& post.env == pre.env
            &&& post.exit_status == 0
            &&& r.action == Action::Done
            &&& views_of(r.output@) == export_listing(pre.env.pairs())
        } else {
            &&& post.env@ == export_apply(pre.env@, views_of(cmd.args@))
            &&& post.exit_status == 0
            &&& r.action == Action::Done
            &&& r.output@.len() == 0
        },
        BuiltinKind::Exit => {
            &&& post == pre
            &&& r.action == Action::Terminate
            &&& r.output@.len() == 1
            &&& r.output@[0]@ == "Goodbye!"@
        },
        BuiltinKind::ChangeDirectory => {
            &&& post == pre
            &&& r.output@.len() == 0
            &&& (r.action matches Action::Chdir { target } && target@ == cd_target_spec(
                views_of(cmd.args@),
                pre.env@,
            ))
        },
        BuiltinKind::Unset => {
            &&& post.env@ == unset_apply(pre.env@, views_of(cmd.args@))
            &&& post.exit_status == 0
            &&& r.action == Action::Done
            &&& r.output@.len() == 0
        },
        BuiltinKind::PrintWorkingDirectory => {
            &&& post.env == pre.env
            &&& post.exit_status == 0
            &&& r.action == Action::Done
            &&& r.output@.len() == 1
            &&& r.output@[0]@ == cwd
        },
        BuiltinKind::Echo => {
            &&& post.env == pre.env
            &&& post.exit_status == 0
            &&& r.action == Action::Done
            &&& r.output@.len() == 1
            &&& r.output@[0]@ == join_spaces(views_of(cmd.args@))
        },
        BuiltinKind::External => {
            &&& post == pre
            &&& r.output@.len() == 0
            &&& r.action == Action::Spawn
        },
    }
}

/// `export NAME=VALUE` followed by `export` with no arguments lists
/// `NAME='VALUE'` among its output lines: whenever one dispatch carries out
/// an `export` with a single `=`-bearing argument and a second dispatch
/// lists the store, the listing holds the line for the pair the argument
/// bound.
pub proof fn lemma_export_then_listing(
    pre: ShellState,
    mid: ShellState,
    post: ShellState,
    cmd1: ParsedCommand,
    cmd2: ParsedCommand,
    cwd: Seq<char>,
    r1: DispatchOutcome,
    r2: DispatchOutcome,
    arg: Seq<char>,
)
    requires
        mid.wf(),
        cmd1.exe@ == "export"@,
        views_of(cmd1.args@) == seq![arg],
        eq_end(arg, 0) < arg.len(),
        dispatch_spec(cmd1, pre, mid, cwd, r1),
        cmd2.exe@ == "export"@,
        cmd2.args@.len() == 0,
        dispatch_spec(cmd2, mid, post, cwd, r2),
    ensures
        exists|i: int|
            0 <= i < r2.output@.len() && (#[trigger] r2.output@[i])@ == export_line(
                arg.subrange(0, eq_end(arg, 0)),
                arg.subrange(eq_end(arg, 0) + 1, arg.len() as int),
            ),
{
    let k = arg.subrange(0, eq_end(arg, 0));
    let v = arg.subrange(eq_end(arg, 0) + 1, arg.len() as int);
    let ws = views_of(cmd1.args@);
    assert(cmd1.args@.len() == 1);
    assert(ws[0] == arg);
    assert(export_apply(pre.env@, ws) == export_apply(export_set(pre.env@, arg), ws.drop_first()));
    assert(ws.drop_first() =~= Seq::<Seq<char>>::empty());
    assert(export_apply(export_set(pre.env@, arg), Seq::<Seq<char>>::empty()) == export_set(
        pre.env@,
        arg,
    ));
    assert(mid.env@ == pre.env@.insert(k, v));
    assert(mid.env@.dom().contains(k) && mid.env@[k] == v);
    lemma_listing_has_binding(mid.env, k);
    let i = choose|i: int|
        0 <= i < export_listing(mid.env.pairs()).len() && #[trigger] export_listing(
            mid.env.pairs(),
        )[i] == export_line(k, mid.env@[k]);
    assert(views_of(r2.output@) == export_listing(mid.env.pairs()));
    assert(r2.output@[i]@ == views_of(r2.output@)[i]);
}

/// `unset NAME` removes `NAME` from subsequent `export` listings: after one
/// dispatch carries an `unset` of the name out, no stored pair names it, so
/// the listing a second dispatch produces derives no line from it.
pub proof fn lemma_unset_then_listing(
    pre: ShellState,
    mid: ShellState,
    post: ShellState,
    cmd1: ParsedCommand,
    cmd2: ParsedCommand,
    cwd: Seq<char>,
    r1: DispatchOutcome,
    r2: DispatchOutcome,
    name: Seq<char>,
)
    requires
        mid.wf(),
        cmd1.exe@ == "unset"@,
        views_of(cmd1.args@) == seq![name],
        dispatch_spec(cmd1, pre, mid, cwd, r1),
        cmd2.exe@ == "export"@,
        cmd2.args@.len() == 0,
        dispatch_spec(cmd2, mid, post, cwd, r2),
    ensures
        views_of(r2.output@) == export_listing(mid.env.pairs()),
        forall|i: int| 0 <= i < mid.env.pairs().len() ==> (#[trigger] mid.env.pairs()[i]).0 != name,
{
    let ws = views_of(cmd1.args@);
    assert(cmd1.args@.len() == 1);
    assert(ws[0] == name);
    reveal_strlit("unset");
    reveal_strlit("export");
    reveal_strlit("exit");
    reveal_strlit("cd");
    assert("unset"@.len() == 5 && "export"@.len() == 6 && "exit"@.len() == 4 && "cd"@.len() == 2);
    assert("unset"@ != "export"@ && "unset"@ != "exit"@ && "unset"@ != "cd"@);
    assert(unset_apply(pre.env@, ws) == unset_apply(pre.env@.remove(name), ws.drop_first()));
    assert(ws.drop_first() =~= Seq::<Seq<char>>::empty());
    assert(unset_apply(pre.env@.remove(name), Seq::<Seq<char>>::empty()) == pre.env@.remove(name));
    assert(mid.env@ == pre.env@.remove(name));
    assert(!mid.env@.dom().contains(name));
    lemma_listing_no_binding(mid.env, name);
}

/// Format one pair for the `export` listing.
fn format_export_line(k: &String, v: &String) -> (r: String)
    ensures
        r@ == export_line(k@, v@),
{
    let mut out: Vec<char> = Vec::new();
    push_str_chars(&mut out, k.as_str());
    out.push('=');
    out.push('\'');
    push_str_chars(&mut out, v.as_str());
    out.push('\'');
    assert(out@ =~= export_line(k@, v@));
    chars_to_string(&out)
}

/// Split an `export` argument on its first `=`, if it has one.
fn split_once_eq(arg: &str) -> (r: Option<(String, String)>)
    ensures
        (match r {
            Some(p) => eq_end(arg@, 0) < arg@.len() && p.0@ == arg@.subrange(0, eq_end(arg@, 0))
                && p.1@ == arg@.subrange(eq_end(arg@, 0) + 1, arg@.len() as int),
            None => eq_end(arg@, 0) == arg@.len(),
        }),
{
    let chars = str_to_chars(arg);
    let n = chars.len();
    let mut i: usize = 0;
    while i < n && chars[i] != '='
        invariant
            i <= n,
            n == chars@.len(),
            chars@ == arg@,
            forall|j: int| 0 <= j < i ==> #[trigger] chars@[j] != '=',
        decreases n - i,
    {
        i = i + 1;
    }
    proof {
        lemma_eq_end_run(chars@, 0, i as int);
    }
    if i < n {
        let name_v = chars_range(&chars, 0, i);
        let val_v = chars_range(&chars, i + 1, n);
        Some((chars_to_string(&name_v), chars_to_string(&val_v)))
    } else {
        None
    }
}

/// Join the arguments with single spaces.
fn join_args(args: &Vec<String>) -> (r: String)
    ensures
        r@ == join_spaces(views_of(args@)),
{
    let n = args.len();
    let mut out: Vec<char> = Vec::new();
    let mut i: usize = 0;
    while i < n
        invariant
            i <= n,
            n == args@.len(),
            out@ == join_spaces(views_of(args@).take(i as int)),
        decreases n - i,
    {
        let ghost ws = views_of(args@);
        let ghost out0 = out@;
        if i > 0 {
            out.push(' ');
        }
        push_str_chars(&mut out, args[i].as_str());
        proof {
            assert(ws.take(i as int).push(ws[i as int]) =~= ws.take(i + 1));
            lemma_join_push(ws.take(i as int), ws[i as int]);
            assert(ws[i as int] == args@[i as int]@);
            if i > 0 {
                assert(out@ =~= (out0 + seq![' ']) + args@[i as int]@);
                assert(join_spaces(ws.take(i as int)) + seq![' '] + ws[i as int] =~= (out0
                    + seq![' ']) + args@[i as int]@);
            } else {
                assert(out@ =~= ws[i as int]);
            }
        }
        i = i + 1;
    }
    proof {
        assert(views_of(args@).take(n as int) =~= views_of(args@));
    }
    chars_to_string(&out)
}

/// Carry one parsed command out: run a built-in against the store, or
/// return the outside action the caller owes. `cwd` is the current working
/// directory as the caller knows it (printed by `pwd`).
pub fn dispatch(cmd: &ParsedCommand, st: &mut ShellState, cwd: &String) -> (r: DispatchOutcome)
    requires
        old(st).wf(),
    ensures
        final(st).wf(),
        dispatch_spec(*cmd, *old(st), *final(st), cwd@, r),
{
    let kind = lookup_builtin(cmd.exe.as_str());
    match kind {
        BuiltinKind::Export => {
            if cmd.args.len() == 0 {
                let pairs = st.env.snapshot();
                let n = pairs.len();
                let mut lines: Vec<String> = Vec::new();
                let mut i: usize = 0;
                while i < n
                    invariant
                        i <= n,
                        n == pairs@.len(),
                        pairs@.map_values(|p: (String, String)| (p.0@, p.1@)) == st.env.pairs(),
                        lines@.len() == i,
                        forall|j: int|
                            0 <= j < i ==> (#[trigger] lines@[j])@ == export_line(
                                st.env.pairs()[j].0,
                                st.env.pairs()[j].1,
                            ),
                    decreases n - i,
                {
                    let p = &pairs[i];
                    let line = format_export_line(&p.0, &p.1);
                    lines.push(line);
                    i = i + 1;
                }
                st.exit_status = 0;
                proof {
                    assert(views_of(lines@) =~= export_listing(st.env.pairs()));
                }
                DispatchOutcome { output: lines, action: Action::Done }
            } else {
                let ghost pre_env: Map<Seq<char>, Seq<char>> = st.env@;
                let ghost ws: Seq<Seq<char>> = views_of(cmd.args@);
                let n = cmd.args.len();
                let mut i: usize = 0;
                while i < n
                    invariant
                        i <= n,
                        n == cmd.args@.len(),
                        ws == views_of(cmd.args@),
                        st.env.wf(),
                        st.env@ == export_apply(pre_env, ws.take(i as int)),
                    decreases n - i,
                {
                    let ghost env0: Map<Seq<char>, Seq<char>> = st.env@;
                    let arg = &cmd.args[i];
                    match split_once_eq(arg.as_str()) {
                        Some(p) => {
                            let (name, value) = p;
                            st.env.set(name, value);
                        },
                        None => {},
                    }
                    proof {
                        assert(ws[i as int] == arg@);
                        assert(st.env@ == export_set(env0, ws[i as int]));
                        assert(ws.take(i as int).push(ws[i as int]) =~= ws.take(i + 1));
                        lemma_export_apply_push(pre_env, ws.take(i as int), ws[i as int]);
                    }
                    i = i + 1;
                }
                st.exit_status = 0;
                proof {
                    assert(ws.take(n as int) =~= ws);
                }
                DispatchOutcome { output: Vec::new(), action: Action::Done }
            }
        },
        BuiltinKind::Exit => {
            let mut output: Vec<String> = Vec::new();
            output.push(String::from_str("Goodbye!"));
            DispatchOutcome { output, action: Action::Terminate }
        },
        BuiltinKind::ChangeDirectory => {
            let target: String = if cmd.args.len() > 0 {
                cmd.args[0].clone()
            } else {
                match st.env.get("HOME") {
                    Some(v) => v,
                    None => String::from_str("/"),
                }
            };
            DispatchOutcome { output: Vec::new(), action: Action::Chdir { target } }
        },
        BuiltinKind::Unset => {
            let ghost pre_env: Map<Seq<char>, Seq<char>> = st.env@;
            let ghost ws: Seq<Seq<char>> = views_of(cmd.args@);
            let n = cmd.args.len();
            let mut i: usize = 0;
            while i < n
                invariant
                    i <= n,
                    n == cmd.args@.len(),
                    ws == views_of(cmd.args@),
                    st.env.wf(),
                    st.env@ == unset_apply(pre_env, ws.take(i as int)),
                decreases n - i,
            {
                let ghost env0: Map<Seq<char>, Seq<char>> = st.env@;
                st.env.remove(cmd.args[i].as_str());
                proof {
                    assert(ws[i as int] == cmd.args@[i as int]@);
                    assert(ws.take(i as int).push(ws[i as int]) =~= ws.take(i + 1));
                    lemma_unset_apply_push(pre_env, ws.take(i as int), ws[i as int]);
                }
                i = i + 1;
            }
            st.exit_status = 0;
            proof {
                assert(ws.take(n as int) =~= ws);
            }
            DispatchOutcome { output: Vec::new(), action: Action::Done }
        },
        BuiltinKind::PrintWorkingDirectory => {
            let mut output: Vec<String> = Vec::new();
            output.push(cwd.clone());
            st.exit_status = 0;
            DispatchOutcome { output, action: Action::Done }
        },
        BuiltinKind::Echo => {
            let line = join_args(&cmd.args);
            let mut output: Vec<String> = Vec::new();
            output.push(line);
            st.exit_status = 0;
            DispatchOutcome { output, action: Action::Done }
        },
        BuiltinKind::External => {
            DispatchOutcome { output: Vec::new(), action: Action::Spawn }
        },
    }
}

/// Record the outcome of the directory change that `cd` requested. On
/// success the pre-change directory is recorded in `OLD_PWD` and the
/// requested path in `PWD`, and the exit status clears; on failure the
/// store is untouched and the exit status becomes 1.
pub fn apply_chdir(st: &mut ShellState, target: &String, prev_dir: &String, ok: bool)
    requires
        old(st).wf(),
    ensures
        final(st).wf(),
        ok ==> final(st).env@ == old(st).env@.insert("OLD_PWD"@, prev_dir@).insert(
            "PWD"@,
            target@,
        ) && final(st).exit_status == 0,
        !ok ==> final(st).env == old(st).env && final(st).exit_status == 1,
{
    if ok {
        st.env.set(String::from_str("OLD_PWD"), prev_dir.clone());
        st.env.set(String::from_str("PWD"), target.clone());
        st.exit_status = 0;
    } else {
        st.exit_status = 1;
    }
}

/// How the caller's attempt to run an external command ended: the child was
/// spawned and waited for; the child was spawned but waiting for it failed;
/// or spawning failed with the given nonzero operating-system error code.
pub enum SpawnOutcome {
    Exited,
    WaitFailed,
    SpawnFailed(u32),
}

/// Record the outcome of the external spawn that `dispatch` requested.
/// Returns the diagnostic lines to print: on a spawn failure, that the
/// command was not found. The exit status becomes 0 after a completed
/// child, 1 when waiting failed, and the operating-system error code when
/// the spawn itself failed.
pub fn apply_spawn(st: &mut ShellState, cmd: &ParsedCommand, outcome: &SpawnOutcome) -> (r: Vec<
    String,
>)
    requires
        old(st).wf(),
        (*outcome matches SpawnOutcome::SpawnFailed(c) ==> c != 0),
    ensures
        final(st).wf(),
        final(st).env == old(st).env,
        (match *outcome {
            SpawnOutcome::Exited => final(st).exit_status == 0 && r@.len() == 0,
            SpawnOutcome::WaitFailed => final(st).exit_status == 1 && r@.len() == 0,
            SpawnOutcome::SpawnFailed(c) => final(st).exit_status == c && final(st).exit_status
                != 0 && r@.len() == 1 && r@[0]@ == cmd.exe@ + ": command not found"@,
        }),
{
    match outcome {
        SpawnOutcome::Exited => {
            st.exit_status = 0;
            Vec::new()
        },
        SpawnOutcome::WaitFailed => {
            st.exit_status = 1;
            Vec::new()
        },
        SpawnOutcome::SpawnFailed(c) => {
            st.exit_status = *c;
            let mut r: Vec<String> = Vec::new();
            r.push(cmd.exe.clone().concat(": command not found"));
            r
        },
    }
}

/// One full input line, composed as the pipeline runs it: expand variables
/// against the store and the exit status, split into words, dispatch.
/// `None` means the expanded line held no words; the state is then
/// untouched and the caller reads the next line.
pub fn run_line(line: &str, st: &mut ShellState, cwd: &String) -> (r: Option<
    (ParsedCommand, DispatchOutcome),
>)
    requires
        old(st).wf(),
    ensures
        final(st).wf(),
        (match r {
            Some(p) => {
                &&& tokens(expand_spec(line@, old(st).env@, old(st).exit_status as nat)).len() > 0
                &&& p.0.words() == tokens(
                    expand_spec(line@, old(st).env@, old(st).exit_status as nat),
                )
                &&& dispatch_spec(p.0, *old(st), *final(st), cwd@, p.1)
            },
            None => {
                &&& tokens(expand_spec(line@, old(st).env@, old(st).exit_status as nat)).len() == 0
                &&& *final(st) == *old(st)
            },
        }),
{
    let expanded = crate::expand::expand_variables(line, &st.env, st.exit_status);
    match tokenize(expanded.as_str()) {
        Some(cmd) => {
            let out = dispatch(&cmd, st, cwd);
            Some((cmd, out))
        },
        None => None,
    }
}

} // verus!
