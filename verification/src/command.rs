//! The command-authorization gate: given a command name, its arguments
//! and a policy snapshot, decide whether the OS action backend may be
//! invoked, and with what normalized name and arguments.  Running the
//! command is someone else's job; this gate only decides.

use vstd::prelude::*;

use crate::text::{contains_ws, has_whitespace, split_whitespace_tokens, split_ws, str_eq};

verus! {

/// Why a command was refused.
#[derive(Debug)]
pub enum CommandError {
    /// The resolved name is not in the applicable allow-list.
    NotWhitelisted,
    /// A registered custom command was asked for while the custom
    /// master switch is off.
    CustomDisabled,
    /// The name is neither a builtin nor a registered custom command.
    UnknownCommand,
    /// The backend ran the command and failed (reported by the shell).
    ExecutionFailure(String),
}

/// What the policy snapshot says: which builtins are enabled, which
/// custom commands are enabled, and which names count as custom at all.
pub struct CommandPolicy {
    pub builtin_allow: Vec<String>,
    pub custom_allow: Vec<String>,
    pub custom_names: Vec<String>,
}

/// The views of a list of strings.
pub open spec fn views_of(l: Seq<String>) -> Seq<Seq<char>> {
    l.map_values(|s: String| s@)
}

/// Membership of `x` in a list of string views.
pub open spec fn in_list(l: Seq<Seq<char>>, x: Seq<char>) -> bool {
    exists|i: int| 0 <= i < l.len() && l[i] == x
}

impl CommandPolicy {
    pub open spec fn builtins(&self) -> Seq<Seq<char>> {
        views_of(self.builtin_allow@)
    }

    pub open spec fn customs(&self) -> Seq<Seq<char>> {
        views_of(self.custom_allow@)
    }

    pub open spec fn names(&self) -> Seq<Seq<char>> {
        views_of(self.custom_names@)
    }
}

/// The built-in command names the backend knows.
pub open spec fn is_builtin(name: Seq<char>) -> bool {
    ||| name == "shutdown"@
    ||| name == "restart"@
    ||| name == "sleep"@
    ||| name == "lock"@
    ||| name == "systeminfo"@
    ||| name == "tasklist"@
    ||| name == "wmic"@
}

/// Membership scan over a list of strings.
pub fn list_contains(l: &Vec<String>, x: &str) -> (r: bool)
    ensures
        r == in_list(views_of(l@), x@),
{
    let n = l.len();
    let mut i: usize = 0;
    while i < n
        invariant
            n == l@.len(),
            0 <= i <= n,
            forall|k: int| 0 <= k < i ==> views_of(l@)[k] != x@,
        decreases n - i,
    {
        if str_eq(l[i].as_str(), x) {
            assert(views_of(l@)[i as int] == x@);
            return true;
        }
        i = i + 1;
    }
    false
}

/// Executable check mirroring `is_builtin`.
pub fn is_builtin_command(name: &str) -> (r: bool)
    ensures
        r == is_builtin(name@),
{
    str_eq(name, "shutdown") || str_eq(name, "restart") || str_eq(name, "sleep") || str_eq(
        name,
        "lock",
    ) || str_eq(name, "systeminfo") || str_eq(name, "tasklist") || str_eq(name, "wmic")
}

/// Canonicalization of a request.  A request may arrive as
/// `("custom", ["ping 127.0.0.1"])` or as `("ping 127.0.0.1", [])` or
/// already split as `("ping", ["127.0.0.1"])`: whitespace inside the
/// head token is split off, the split-off tail is prepended to the
/// remaining explicit arguments, and all three forms resolve alike.
pub open spec fn resolve_spec(command: Seq<char>, args: Seq<Seq<char>>) -> (Seq<char>, Seq<
    Seq<char>,
>) {
    if command == "custom"@ {
        if args.len() == 0 {
            (command, args)
        } else {
            let toks = split_ws(args[0]);
            if toks.len() == 0 {
                (args[0], Seq::<Seq<char>>::empty())
            } else {
                (toks[0], toks.drop_first() + args.drop_first())
            }
        }
    } else if contains_ws(command) {
        let toks = split_ws(command);
        if toks.len() == 0 {
            (command, args)
        } else {
            (toks[0], toks.drop_first() + args)
        }
    } else {
        (command, args)
    }
}

/// What the policy says about the resolved name, or nothing when the
/// call may go ahead: a registered custom name needs the `custom`
/// master switch among the enabled builtins and then its own entry in
/// the custom allow-list; a builtin needs its entry among the enabled
/// builtins; everything else is unknown.
pub open spec fn authorize_spec(policy: &CommandPolicy, name: Seq<char>) -> Option<CommandError> {
    if in_list(policy.names(), name) {
        if !in_list(policy.builtins(), "custom"@) {
            Some(CommandError::CustomDisabled)
        } else if !in_list(policy.customs(), name) {
            Some(CommandError::NotWhitelisted)
        } else {
            None
        }
    } else if is_builtin(name) {
        if !in_list(policy.builtins(), name) {
            Some(CommandError::NotWhitelisted)
        } else {
            None
        }
    } else {
        Some(CommandError::UnknownCommand)
    }
}

/// The command gate's decision: either the normalized invocation for
/// the backend, or the refusal.
pub enum CommandDecision {
    Approved { command: String, args: Vec<String> },
    Rejected { error: CommandError },
}

/// An element-wise copy of a list of strings.
pub fn clone_string_vec(v: &Vec<String>) -> (r: Vec<String>)
    ensures
        r@ == v@,
{
    let n = v.len();
    let mut r: Vec<String> = Vec::new();
    while r.len() < n
        invariant
            n == v@.len(),
            r@.len() <= n,
            r@ =~= v@.subrange(0, r@.len() as int),
        decreases n - r@.len(),
    {
        let i = r.len();
        r.push(v[i].clone());
        proof {
            assert(r@ =~= v@.subrange(0, r@.len() as int));
        }
    }
    proof {
        assert(v@.subrange(0, n as int) =~= v@);
    }
    r
}

/// Split the head token off a request, as `resolve_spec` says.
pub fn resolve_command(command: &str, args: &Vec<String>) -> (r: (String, Vec<String>))
    ensures
        (r.0@, views_of(r.1@)) == resolve_spec(command@, views_of(args@)),
{
    let ghost spec_args = views_of(args@);
    if str_eq(command, "custom") {
        if args.len() == 0 {
            (command.to_owned(), clone_string_vec(args))
        } else {
            let toks = split_whitespace_tokens(args[0].as_str());
            proof {
                assert(views_of(toks@) == split_ws(spec_args[0]));
            }
            if toks.len() == 0 {
                let r = (args[0].clone(), Vec::<String>::new());
                proof {
                    assert(views_of(r.1@) =~= Seq::<Seq<char>>::empty());
                }
                r
            } else {
                let name = toks[0].clone();
                let mut rest: Vec<String> = Vec::new();
                let mut i: usize = 1;
                while i < toks.len()
                    invariant
                        1 <= i <= toks@.len(),
                        views_of(rest@) =~= views_of(toks@).subrange(1, i as int),
                    decreases toks@.len() - i,
                {
                    let ghost rest_prev = rest@;
                    rest.push(toks[i].clone());
                    proof {
                        assert(views_of(rest@) =~= views_of(rest_prev).push(toks@[i as int]@));
                        assert(views_of(rest@) =~= views_of(toks@).subrange(1, i + 1));
                    }
                    i = i + 1;
                }
                let mut j: usize = 1;
                while j < args.len()
                    invariant
                        1 <= j <= args@.len(),
                        views_of(rest@) =~= views_of(toks@).drop_first() + views_of(
                            args@,
                        ).subrange(1, j as int),
                    decreases args@.len() - j,
                {
                    let ghost rest_prev = rest@;
                    rest.push(args[j].clone());
                    proof {
                        assert(views_of(rest@) =~= views_of(rest_prev).push(args@[j as int]@));
                        assert(views_of(rest@) =~= views_of(toks@).drop_first() + views_of(
                            args@,
                        ).subrange(1, j + 1));
                    }
                    j = j + 1;
                }
                proof {
                    assert(views_of(toks@).drop_first() == split_ws(spec_args[0]).drop_first());
                    assert(views_of(args@).subrange(1, args@.len() as int) =~= spec_args
                        .drop_first());
                }
                (name, rest)
            }
        }
    } else if has_whitespace(command) {
        let toks = split_whitespace_tokens(command);
        if toks.len() == 0 {
            (command.to_owned(), clone_string_vec(args))
        } else {
            let name = toks[0].clone();
            let mut rest: Vec<String> = Vec::new();
            let mut i: usize = 1;
            while i < toks.len()
                invariant
                    1 <= i <= toks@.len(),
                    views_of(rest@) =~= views_of(toks@).subrange(1, i as int),
                decreases toks@.len() - i,
            {
                let ghost rest_prev = rest@;
                rest.push(toks[i].clone());
                proof {
                    assert(views_of(rest@) =~= views_of(rest_prev).push(toks@[i as int]@));
                    assert(views_of(rest@) =~= views_of(toks@).subrange(1, i + 1));
                }
                i = i + 1;
            }
            let mut j: usize = 0;
            while j < args.len()
                invariant
                    0 <= j <= args@.len(),
                    views_of(rest@) =~= views_of(toks@).drop_first() + views_of(args@).subrange(
                        0,
                        j as int,
                    ),
                decreases args@.len() - j,
            {
                let ghost rest_prev = rest@;
                rest.push(args[j].clone());
                proof {
                    assert(views_of(rest@) =~= views_of(rest_prev).push(args@[j as int]@));
                    assert(views_of(rest@) =~= views_of(toks@).drop_first() + views_of(
                        args@,
                    ).subrange(0, j + 1));
                }
                j = j + 1;
            }
            proof {
                assert(views_of(toks@).drop_first() == split_ws(command@).drop_first());
                assert(views_of(args@).subrange(0, args@.len() as int) =~= spec_args);
            }
            (name, rest)
        }
    } else {
        (command.to_owned(), clone_string_vec(args))
    }
}

/// The command gate: a policy snapshot and the backend's timeout.
pub struct CommandExecutor {
    pub timeout_seconds: u64,
    pub policy: CommandPolicy,
}

impl CommandExecutor {
    /// A gate over the given policy snapshot, with the default timeout.
    pub fn new(policy: CommandPolicy) -> (r: Self)
        ensures
            r.timeout_seconds == 30,
            r.policy == policy,
    {
        CommandExecutor { timeout_seconds: 30, policy }
    }

    /// Every command name the policy currently allows, builtins first.
    pub fn get_whitelist(&self) -> (r: Vec<String>)
        ensures
            r@ == self.policy.builtin_allow@ + self.policy.custom_allow@,
    {
        let mut r = clone_string_vec(&self.policy.builtin_allow);
        let mut tail = clone_string_vec(&self.policy.custom_allow);
        r.append(&mut tail);
        r
    }

    /// Whether `command` stands in either allow-list.
    pub fn is_allowed(&self, command: &str) -> (r: bool)
        ensures
            r == (in_list(self.policy.builtins(), command@) || in_list(
                self.policy.customs(),
                command@,
            )),
    {
        list_contains(&self.policy.builtin_allow, command) || list_contains(
            &self.policy.custom_allow,
            command,
        )
    }

    /// Resolve the request and decide it against the policy: the
    /// normalized invocation when the policy allows it, the exact
    /// refusal otherwise.
    pub fn execute(&self, command: &str, args: &Vec<String>) -> (r: CommandDecision)
        ensures
            ({
                let resolved = resolve_spec(command@, views_of(args@));
                match authorize_spec(&self.policy, resolved.0) {
                    Some(e) => r matches CommandDecision::Rejected { error } && error == e,
                    None => r matches CommandDecision::Approved { command: c, args: a } && c@
                        == resolved.0 && views_of(a@) == resolved.1,
                }
            }),
    {
        decide_command(&self.policy, command, args)
    }
}

/// The whole gate as one decision.
pub fn decide_command(policy: &CommandPolicy, command: &str, args: &Vec<String>) -> (r:
    CommandDecision)
    ensures
        ({
            let resolved = resolve_spec(command@, views_of(args@));
            match authorize_spec(policy, resolved.0) {
                Some(e) => r matches CommandDecision::Rejected { error } && error == e,
                None => r matches CommandDecision::Approved { command: c, args: a } && c@
                    == resolved.0 && views_of(a@) == resolved.1,
            }
        }),
{
    let (name, rest) = resolve_command(command, args);
    if list_contains(&policy.custom_names, name.as_str()) {
        if !list_contains(&policy.builtin_allow, "custom") {
            CommandDecision::Rejected { error: CommandError::CustomDisabled }
        } else if !list_contains(&policy.custom_allow, name.as_str()) {
            CommandDecision::Rejected { error: CommandError::NotWhitelisted }
        } else {
            CommandDecision::Approved { command: name, args: rest }
        }
    } else if is_builtin_command(name.as_str()) {
        if !list_contains(&policy.builtin_allow, name.as_str()) {
            CommandDecision::Rejected { error: CommandError::NotWhitelisted }
        } else {
            CommandDecision::Approved { command: name, args: rest }
        }
    } else {
        CommandDecision::Rejected { error: CommandError::UnknownCommand }
    }
}

} // verus!
