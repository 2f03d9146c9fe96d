use vstd::prelude::*;

use crate::parser::{parse_cmd_spec, parse_uninstall_command};
use crate::text::{
    chars_of, contains_spec, contains_sub, ends_with_chars, ends_with_spec, join_ws, join_ws_spec,
    lower_chars, lower_spec, split_ws_spec, split_ws_str, trim_bounds, trim_spec,
};

verus! {

// The privilege-aware launcher's decision core. Process creation itself is
// I/O and stays with the caller: this module decides, from plain values,
// which program to launch and with which arguments, routes
// installer-service commands ("msiexec") past the general parser, builds
// the escaped shell command for the single elevated retry, and fixes the
// reported message for every outcome. The caller performs each spawn and
// hands the outcome back.

/// How one spawn attempt ended, as the caller observed it. The
/// distinguished "elevation required" failure is the only one that may
/// trigger the elevated retry; any other failure is terminal.
pub enum SpawnOutcome {
    /// The OS acknowledged process creation.
    Launched,
    /// The OS refused the launch for want of privilege.
    ElevationRequired { message: String },
    /// The program path does not exist.
    NotFound { message: String },
    /// Any other launch failure.
    Failed { message: String },
}

/// What a raw uninstall string asks for.
pub enum UninstallPlan {
    /// The string was empty: nothing can be launched.
    NoCommand,
    /// An installer-service command: the service is invoked with the
    /// whitespace-separated tokens after the first.
    Msi { args: Vec<String> },
    /// A standalone uninstaller: the parsed program and arguments.
    Direct { program: String, args: Vec<String> },
}

/// The installer-service marker occurs in the lowercased trimmed command.
pub open spec fn is_msi_spec(raw: Seq<char>) -> bool {
    contains_spec(lower_spec(trim_spec(raw)), "msiexec"@)
}

/// Routes a raw uninstall string: empty strings are rejected, any string
/// containing "msiexec" (in any casing) goes to the installer service with
/// its remaining tokens, and everything else is split by the general
/// parser.
pub fn plan_uninstall(uninstall_string: &str) -> (r: UninstallPlan)
    ensures
        (uninstall_string@.len() == 0) <==> r is NoCommand,
        (uninstall_string@.len() > 0 && is_msi_spec(uninstall_string@)) <==> r is Msi,
        (r matches UninstallPlan::Msi { args } ==> args.deep_view() == split_ws_spec(
            trim_spec(uninstall_string@),
        ).drop_first()),
        (r matches UninstallPlan::Direct { program, args } ==> program@ == parse_cmd_spec(
            uninstall_string@,
        ).0 && args.deep_view() == parse_cmd_spec(uninstall_string@).1),
{
    if uninstall_string.is_empty() {
        return UninstallPlan::NoCommand;
    }
    let v = chars_of(uninstall_string);
    let (a, b) = trim_bounds(&v);
    let trimmed = uninstall_string.substring_char(a, b);
    proof {
        assert(trimmed@ =~= trim_spec(uninstall_string@));
    }
    let tl = lower_chars(&chars_of(trimmed));
    let marker = chars_of("msiexec");
    if contains_sub(&tl, &marker) {
        let mut parts = split_ws_str(trimmed);
        if parts.len() == 0 {
            proof {
                // the marker is seven characters, so the trimmed command
                // holds a word
                assert(false) by {
                    reveal_strlit("msiexec");
                    let t = trim_spec(uninstall_string@);
                    let i = choose|i: int|
                        crate::text::match_at(lower_spec(t), "msiexec"@, i);
                    assert(lower_spec(t).len() >= 7);
                    assert(t.len() >= 7);
                    lemma_trim_shape(uninstall_string@);
                    assert(!crate::text::is_space_char(t[0]));
                    assert(split_ws_spec(t).len() >= 1);
                    assert(parts.deep_view().len() == parts@.len());
                    assert(trimmed@ == t);
                }
            }
        }
        let ghost old_parts = parts.deep_view();
        parts.remove(0);
        proof {
            assert(parts.deep_view() =~~= old_parts.drop_first());
        }
        return UninstallPlan::Msi { args: parts };
    }
    let (program, args) = parse_uninstall_command(trimmed);
    proof {
        lemma_parse_cmd_trim(uninstall_string@);
    }
    UninstallPlan::Direct { program, args }
}

/// Trimming first does not change what the parser returns: the parser
/// itself trims, and trimming is idempotent.
proof fn lemma_parse_cmd_trim(raw: Seq<char>)
    ensures
        parse_cmd_spec(trim_spec(raw)) == parse_cmd_spec(raw),
{
    lemma_trim_idempotent(raw);
}

/// `trim_spec` is idempotent.
proof fn lemma_trim_idempotent(raw: Seq<char>)
    ensures
        trim_spec(trim_spec(raw)) == trim_spec(raw),
{
    let t = trim_spec(raw);
    lemma_trim_shape(raw);
    assert(crate::text::trim_start_spec(t) == t) by {
        if t.len() > 0 && crate::text::is_space_char(t[0]) {
            assert(false);
        }
    }
    assert(crate::text::trim_end_spec(t) == t) by {
        if t.len() > 0 && crate::text::is_space_char(t.last()) {
            assert(false);
        }
    }
}

/// A trimmed string neither starts nor ends with whitespace.
proof fn lemma_trim_shape(raw: Seq<char>)
    ensures
        trim_spec(raw).len() > 0 ==> !crate::text::is_space_char(trim_spec(raw)[0]),
        trim_spec(raw).len() > 0 ==> !crate::text::is_space_char(trim_spec(raw).last()),
{
    lemma_trim_start_shape(raw);
    let s = crate::text::trim_start_spec(raw);
    lemma_trim_end_shape(s);
    let t = crate::text::trim_end_spec(s);
    assert(t == trim_spec(raw));
    if t.len() > 0 {
        lemma_trim_end_prefix(s);
    }
}

/// `trim_start_spec` leaves no leading whitespace.
proof fn lemma_trim_start_shape(raw: Seq<char>)
    ensures
        trim_spec(raw) == trim_spec(raw),
        crate::text::trim_start_spec(raw).len() > 0 ==> !crate::text::is_space_char(
            crate::text::trim_start_spec(raw)[0],
        ),
    decreases raw.len(),
{
    if raw.len() > 0 && crate::text::is_space_char(raw[0]) {
        lemma_trim_start_shape(raw.drop_first());
    }
}

/// `trim_end_spec` leaves no trailing whitespace.
proof fn lemma_trim_end_shape(s: Seq<char>)
    ensures
        crate::text::trim_end_spec(s).len() > 0 ==> !crate::text::is_space_char(
            crate::text::trim_end_spec(s).last(),
        ),
    decreases s.len(),
{
    if s.len() > 0 && crate::text::is_space_char(s.last()) {
        lemma_trim_end_shape(s.drop_last());
    }
}

/// `trim_end_spec` returns a prefix: the first character survives.
proof fn lemma_trim_end_prefix(s: Seq<char>)
    ensures
        crate::text::trim_end_spec(s).len() > 0 ==> crate::text::trim_end_spec(s)[0] == s[0],
    decreases s.len(),
{
    if s.len() > 0 && crate::text::is_space_char(s.last()) {
        lemma_trim_end_prefix(s.drop_last());
    }
}

/// The program to launch, given what the filesystem reports: a program
/// path that does not exist and lacks the ".exe" extension is retried with
/// the extension appended, when that path exists.
pub open spec fn select_program_spec(
    program: Seq<char>,
    program_exists: bool,
    with_exe_exists: bool,
) -> Seq<char> {
    if !program_exists && !ends_with_spec(lower_spec(program), ".exe"@) && with_exe_exists {
        program + ".exe"@
    } else {
        program
    }
}

/// Applies the extension fallback. The caller reports whether the program
/// path exists, and whether the path with ".exe" appended exists.
pub fn select_program(program: String, program_exists: bool, with_exe_exists: bool) -> (r: String)
    ensures
        r@ == select_program_spec(program@, program_exists, with_exe_exists),
{
    let pl = lower_chars(&chars_of(program.as_str()));
    let exe = chars_of(".exe");
    if !program_exists && !ends_with_chars(&pl, &exe) && with_exe_exists {
        let mut r = program;
        r.append(".exe");
        r
    } else {
        program
    }
}

/// The input with every single-quote character doubled, so that embedding
/// it between single quotes in a shell command cannot break out of the
/// quoting.
pub open spec fn escape_quotes_spec(s: Seq<char>) -> Seq<char>
    decreases s.len(),
{
    if s.len() == 0 {
        s
    } else if s[0] == '\'' {
        seq!['\'', '\''] + escape_quotes_spec(s.drop_first())
    } else {
        seq![s[0]] + escape_quotes_spec(s.drop_first())
    }
}

/// Escaping distributes over concatenation.
proof fn lemma_escape_concat(a: Seq<char>, b: Seq<char>)
    ensures
        escape_quotes_spec(a + b) == escape_quotes_spec(a) + escape_quotes_spec(b),
    decreases a.len(),
{
    if a.len() == 0 {
        assert(a + b =~= b);
        assert(escape_quotes_spec(a) + escape_quotes_spec(b) =~= escape_quotes_spec(b));
    } else {
        lemma_escape_concat(a.drop_first(), b);
        assert((a + b).drop_first() =~= a.drop_first() + b);
        assert((a + b)[0] == a[0]);
        if a[0] == '\'' {
            assert(escape_quotes_spec(a + b) =~= escape_quotes_spec(a) + escape_quotes_spec(b));
        } else {
            assert(escape_quotes_spec(a + b) =~= escape_quotes_spec(a) + escape_quotes_spec(b));
        }
    }
}

/// A quote-free string escapes to itself.
proof fn lemma_escape_clean(s: Seq<char>)
    requires
        forall|i: int| 0 <= i < s.len() ==> s[i] != '\'',
    ensures
        escape_quotes_spec(s) == s,
    decreases s.len(),
{
    if s.len() > 0 {
        lemma_escape_clean(s.drop_first());
        assert(escape_quotes_spec(s) =~= s);
    }
}

/// Doubles every single quote in the input.
#[verifier::loop_isolation(false)]
pub fn escape_quotes(s: &str) -> (r: String)
    ensures
        r@ == escape_quotes_spec(s@),
{
    let v = chars_of(s);
    let n = v.len();
    let mut r = String::new();
    let mut start: usize = 0;
    let mut i: usize = 0;
    proof {
        assert(s@.subrange(0, 0) =~= Seq::<char>::empty());
        assert(escape_quotes_spec(Seq::<char>::empty()) =~= Seq::<char>::empty());
    }
    while i < n
        invariant
            start <= i <= n,
            r@ == escape_quotes_spec(s@.subrange(0, start as int)),
            forall|k: int| start <= k < i ==> s@[k] != '\'',
        decreases n - i,
    {
        if v[i] == '\'' {
            r.append(s.substring_char(start, i));
            r.append("''");
            proof {
                reveal_strlit("''");
                let pre = s@.subrange(0, start as int);
                let run = s@.subrange(start as int, i as int);
                lemma_escape_clean(run);
                lemma_escape_concat(pre, run);
                assert(pre + run =~= s@.subrange(0, i as int));
                lemma_escape_concat(s@.subrange(0, i as int), seq![s@[i as int]]);
                assert(escape_quotes_spec(seq![s@[i as int]]) =~= seq!['\'', '\'']) by {
                    assert(seq![s@[i as int]].drop_first() =~= Seq::<char>::empty());
                }
                assert(s@.subrange(0, i as int) + seq![s@[i as int]] =~= s@.subrange(
                    0,
                    i + 1 as int,
                ));
                assert("''"@ =~= seq!['\'', '\'']);
            }
            start = i + 1;
        }
        i += 1;
    }
    r.append(s.substring_char(start, n));
    proof {
        let pre = s@.subrange(0, start as int);
        let run = s@.subrange(start as int, n as int);
        lemma_escape_clean(run);
        lemma_escape_concat(pre, run);
        assert(pre + run =~= s@);
    }
    r
}

/// The shell command for the single elevated retry: a privileged-launch
/// request with the program path and the joined arguments embedded between
/// single quotes, each with its quotes doubled.
pub open spec fn elevated_command_spec(program: Seq<char>, args: Seq<Seq<char>>) -> Seq<char> {
    "Start-Process -FilePath '"@ + escape_quotes_spec(program) + "' -ArgumentList '"@
        + escape_quotes_spec(join_ws_spec(args)) + "' -Verb RunAs"@
}

/// Builds the elevated-retry shell command.
pub fn build_elevated_command(program: &str, args: &Vec<String>) -> (r: String)
    ensures
        r@ == elevated_command_spec(program@, args.deep_view()),
{
    let mut r = String::from_str("Start-Process -FilePath '");
    let ep = escape_quotes(program);
    r.append(ep.as_str());
    r.append("' -ArgumentList '");
    let joined = join_ws(args);
    let ea = escape_quotes(joined.as_str());
    r.append(ea.as_str());
    r.append("' -Verb RunAs");
    r
}

/// Which handler a launch goes through: the installer service or a
/// standalone uninstaller executable.
pub enum LaunchRoute {
    Installer,
    Executable,
}

/// What the launcher asks its caller to do next after a direct attempt:
/// run the single elevated retry, or stop with a final report.
pub enum LaunchStep {
    RunElevated { command: String },
    Done { result: Result<String, String> },
}

/// The launcher's phases. A launch starts with the direct attempt; only
/// the distinguished "elevation required" failure moves it to the elevated
/// attempt, and every outcome of that attempt settles it.
pub enum LaunchPhase {
    DirectAttempt,
    ElevatedAttempt,
    Settled,
}

/// The phase transition: one step per phase, driven by the spawn outcome.
pub open spec fn next_phase(p: LaunchPhase, o: SpawnOutcome) -> LaunchPhase {
    match p {
        LaunchPhase::DirectAttempt => if o is ElevationRequired {
            LaunchPhase::ElevatedAttempt
        } else {
            LaunchPhase::Settled
        },
        LaunchPhase::ElevatedAttempt => LaunchPhase::Settled,
        LaunchPhase::Settled => LaunchPhase::Settled,
    }
}

/// The phases a launch passes through, starting at the direct attempt and
/// stepping once per observed outcome.
pub open spec fn phase_trace(outcomes: Seq<SpawnOutcome>) -> Seq<LaunchPhase>
    decreases outcomes.len(),
{
    if outcomes.len() == 0 {
        seq![LaunchPhase::DirectAttempt]
    } else {
        let pre = phase_trace(outcomes.drop_last());
        pre.push(next_phase(pre.last(), outcomes.last()))
    }
}

/// How many of the phases are the elevated attempt.
pub open spec fn count_elevated(t: Seq<LaunchPhase>) -> int
    decreases t.len(),
{
    if t.len() == 0 {
        0
    } else {
        count_elevated(t.drop_last()) + if t.last() is ElevatedAttempt {
            1int
        } else {
            0int
        }
    }
}

proof fn lemma_phase_trace_shape(outcomes: Seq<SpawnOutcome>)
    ensures
        phase_trace(outcomes).len() == outcomes.len() + 1,
        count_elevated(phase_trace(outcomes)) <= 1,
        phase_trace(outcomes).last() is DirectAttempt ==> count_elevated(phase_trace(outcomes))
            == 0,
        phase_trace(outcomes).last() is ElevatedAttempt ==> count_elevated(phase_trace(outcomes))
            == 1,
    decreases outcomes.len(),
{
    if outcomes.len() == 0 {
        let t = phase_trace(outcomes);
        assert(t == seq![LaunchPhase::DirectAttempt]);
        assert(t.drop_last() =~= Seq::<LaunchPhase>::empty());
        assert(count_elevated(Seq::<LaunchPhase>::empty()) == 0);
        assert(count_elevated(t) == 0);
    } else {
        lemma_phase_trace_shape(outcomes.drop_last());
        let pre = phase_trace(outcomes.drop_last());
        let t = phase_trace(outcomes);
        assert(t == pre.push(next_phase(pre.last(), outcomes.last())));
        assert(t.drop_last() =~= pre);
        assert(t.last() == next_phase(pre.last(), outcomes.last()));
        assert(count_elevated(t) == count_elevated(t.drop_last()) + if t.last()
            is ElevatedAttempt {
            1int
        } else {
            0int
        });
        assert(count_elevated(t.drop_last()) == count_elevated(pre));
        match pre.last() {
            LaunchPhase::DirectAttempt => {
                assert(count_elevated(pre) == 0);
            },
            LaunchPhase::ElevatedAttempt => {
                assert(t.last() is Settled);
            },
            LaunchPhase::Settled => {
                assert(t.last() is Settled);
            },
        }
    }
}

/// However any sequence of spawn attempts ends, the launcher makes at most
/// one elevated attempt per uninstall request: elevation is entered only
/// from the direct attempt, and every outcome of the elevated attempt is
/// terminal.
pub proof fn lemma_single_elevation(outcomes: Seq<SpawnOutcome>)
    ensures
        count_elevated(phase_trace(outcomes)) <= 1,
{
    lemma_phase_trace_shape(outcomes);
}

/// The message reported when a direct attempt succeeds.
pub open spec fn direct_success_message(route: LaunchRoute) -> Seq<char> {
    match route {
        LaunchRoute::Executable => "Uninstaller launched successfully"@,
        LaunchRoute::Installer => "Windows Installer launched"@,
    }
}

/// The message that came with a failed outcome.
pub open spec fn outcome_message_spec(o: SpawnOutcome) -> Seq<char> {
    match o {
        SpawnOutcome::Launched => Seq::empty(),
        SpawnOutcome::ElevationRequired { message } => message@,
        SpawnOutcome::NotFound { message } => message@,
        SpawnOutcome::Failed { message } => message@,
    }
}

/// The error reported when a direct attempt fails terminally. Only the
/// executable route distinguishes a missing program; the installer route
/// reports every failure alike.
pub open spec fn direct_failure_message(
    route: LaunchRoute,
    program: Seq<char>,
    o: SpawnOutcome,
) -> Seq<char> {
    match route {
        LaunchRoute::Executable => match o {
            SpawnOutcome::NotFound { message } => "Uninstaller not found: "@ + program
                + ". The software may have been partially removed."@,
            _ => "Failed to launch uninstaller: "@ + outcome_message_spec(o),
        },
        LaunchRoute::Installer => "Failed to launch Windows Installer: "@ + outcome_message_spec(
            o,
        ),
    }
}

/// Decides what follows the direct attempt: success and terminal failures
/// settle the launch with their fixed messages; exactly the "elevation
/// required" outcome asks for the single elevated retry, with the escaped
/// shell command already built.
pub fn after_direct_attempt(
    route: LaunchRoute,
    program: &str,
    args: &Vec<String>,
    outcome: &SpawnOutcome,
) -> (r: LaunchStep)
    ensures
        (outcome is ElevationRequired) <==> (r is RunElevated),
        (r is RunElevated) <==> (next_phase(LaunchPhase::DirectAttempt, *outcome)
            is ElevatedAttempt),
        (r matches LaunchStep::RunElevated { command } ==> command@ == elevated_command_spec(
            program@,
            args.deep_view(),
        )),
        (outcome is Launched ==> (r matches LaunchStep::Done { result } && result matches Ok(m)
            && m@ == direct_success_message(route))),
        ((outcome is NotFound || outcome is Failed) ==> (r matches LaunchStep::Done { result }
            && result matches Err(m) && m@ == direct_failure_message(route, program@, *outcome))),
{
    match outcome {
        SpawnOutcome::Launched => {
            let message = match route {
                LaunchRoute::Executable => String::from_str("Uninstaller launched successfully"),
                LaunchRoute::Installer => String::from_str("Windows Installer launched"),
            };
            LaunchStep::Done { result: Ok(message) }
        },
        SpawnOutcome::ElevationRequired { message: _ } => {
            LaunchStep::RunElevated { command: build_elevated_command(program, args) }
        },
        SpawnOutcome::NotFound { message } => {
            let text = match route {
                LaunchRoute::Executable => {
                    let mut t = String::from_str("Uninstaller not found: ");
                    t.append(program);
                    t.append(". The software may have been partially removed.");
                    t
                },
                LaunchRoute::Installer => {
                    let mut t = String::from_str("Failed to launch Windows Installer: ");
                    t.append(message.as_str());
                    t
                },
            };
            LaunchStep::Done { result: Err(text) }
        },
        SpawnOutcome::Failed { message } => {
            let text = match route {
                LaunchRoute::Executable => {
                    let mut t = String::from_str("Failed to launch uninstaller: ");
                    t.append(message.as_str());
                    t
                },
                LaunchRoute::Installer => {
                    let mut t = String::from_str("Failed to launch Windows Installer: ");
                    t.append(message.as_str());
                    t
                },
            };
            LaunchStep::Done { result: Err(text) }
        },
    }
}

/// Settles the launch after the elevated retry: every outcome is terminal,
/// so no further retry can follow.
pub fn after_elevated_attempt(outcome: &SpawnOutcome) -> (r: Result<String, String>)
    ensures
        (outcome is Launched) <==> (r is Ok),
        (r matches Ok(m) ==> m@ == "Uninstaller launched with administrator privileges"@),
        (r matches Err(m) ==> m@ == "Failed to launch uninstaller with elevation: "@
            + outcome_message_spec(*outcome)),
        next_phase(LaunchPhase::ElevatedAttempt, *outcome) is Settled,
{
    match outcome {
        SpawnOutcome::Launched => Ok(
            String::from_str("Uninstaller launched with administrator privileges"),
        ),
        SpawnOutcome::ElevationRequired { message } => {
            let mut t = String::from_str("Failed to launch uninstaller with elevation: ");
            t.append(message.as_str());
            Err(t)
        },
        SpawnOutcome::NotFound { message } => {
            let mut t = String::from_str("Failed to launch uninstaller with elevation: ");
            t.append(message.as_str());
            Err(t)
        },
        SpawnOutcome::Failed { message } => {
            let mut t = String::from_str("Failed to launch uninstaller with elevation: ");
            t.append(message.as_str());
            Err(t)
        },
    }
}

/// The rejection reported for an empty uninstall string.
pub fn no_command_message() -> (r: String)
    ensures
        r@ == "No uninstall command available for this software"@,
{
    String::from_str("No uninstall command available for this software")
}

} // verus!
