//! Running tools, described as values.
//!
//! Capabilities plan work and never perform it. Because a [`ProcessPlan`] is
//! data it can be digested, and the digest goes into evidence provenance: a
//! bundle proves not just that a tool ran but that it ran with retries
//! disabled, a fixed thread count and a seeded generator.

use vstd::prelude::*;
use crate::text::{decimal, join_text, views, push_char, push_joined, push_str, push_u64, seq_lt, string_of};

verus! {

/// Conditions that make a run reproducible.
#[derive(Clone, PartialEq, Eq, Structural, Debug)]
#[non_exhaustive]
pub struct Determinism {
    /// Disable the harness's own retry logic.
    pub retries_disabled: bool,
    /// Pin the thread count, when the tool supports it.
    pub threads: Option<u32>,
    /// Seed for property-testing and fuzzing harnesses.
    pub seed: Option<u64>,
}

impl Default for Determinism {
    /// Retries off, one thread, seed zero.
    fn default() -> (d: Determinism)
        ensures
            d.retries_disabled,
            d.threads == Some(1u32),
            d.seed == Some(0u64),
    {
        Determinism { retries_disabled: true, threads: Some(1), seed: Some(0) }
    }
}

/// Which environment variables a child may see: an allowlist.
#[derive(Clone, PartialEq, Eq, Debug)]
pub struct EnvPolicy {
    /// Names passed through from the parent environment, sorted.
    pub inherit: Vec<String>,
    /// Explicit values, applied after inheritance, ascending by name.
    pub set: Vec<(String, String)>,
}

impl EnvPolicy {
    /// Each explicitly set name once, in ascending code-point order: the
    /// shape a map keyed by name has.
    pub open spec fn wf(self) -> bool {
        forall|i: int, j: int|
            #![trigger self.set@[i], self.set@[j]]
            0 <= i < j < self.set@.len() ==> seq_lt(self.set@[i].0@, self.set@[j].0@)
    }
}

/// The default allowlist: `CARGO_HOME`, `HOME`, `PATH` and `RUSTUP_HOME`
/// inherited, `LC_ALL=C` and `TZ=UTC` set.
pub open spec fn is_default_env(p: EnvPolicy) -> bool {
    &&& p.inherit@.len() == 4
    &&& p.inherit@[0]@ == "CARGO_HOME"@
    &&& p.inherit@[1]@ == "HOME"@
    &&& p.inherit@[2]@ == "PATH"@
    &&& p.inherit@[3]@ == "RUSTUP_HOME"@
    &&& p.set@.len() == 2
    &&& p.set@[0].0@ == "LC_ALL"@
    &&& p.set@[0].1@ == "C"@
    &&& p.set@[1].0@ == "TZ"@
    &&& p.set@[1].1@ == "UTC"@
}

impl Default for EnvPolicy {
    /// Inherit only what finds a toolchain; pin the locale and the zone.
    fn default() -> (p: EnvPolicy)
        ensures
            is_default_env(p),
            p.wf(),
    {
        let mut inherit: Vec<String> = Vec::new();
        inherit.push(string_of("CARGO_HOME"));
        inherit.push(string_of("HOME"));
        inherit.push(string_of("PATH"));
        inherit.push(string_of("RUSTUP_HOME"));
        let mut set: Vec<(String, String)> = Vec::new();
        set.push((string_of("LC_ALL"), string_of("C")));
        set.push((string_of("TZ"), string_of("UTC")));
        proof {
            reveal_strlit("LC_ALL");
            reveal_strlit("TZ");
            assert(seq_lt(set@[0].0@, set@[1].0@));
        }
        EnvPolicy { inherit, set }
    }
}

/// Whether a child may reach the network.
#[derive(Clone, Copy, PartialEq, Eq, Structural, Debug)]
pub enum NetworkPolicy {
    /// No network: the default.
    Denied,
    /// Network permitted, because the tool genuinely needs it.
    Allowed,
}

impl Default for NetworkPolicy {
    /// No network.
    fn default() -> (p: NetworkPolicy)
        ensures
            p == NetworkPolicy::Denied,
    {
        NetworkPolicy::Denied
    }
}

/// A described, not-yet-performed subprocess.
#[derive(Clone, PartialEq, Eq, Debug)]
#[non_exhaustive]
pub struct ProcessPlan {
    /// Program to run.
    pub program: String,
    /// Arguments, already split: never a shell string.
    pub args: Vec<String>,
    /// Working directory, repository-relative.
    pub cwd: String,
    /// Environment policy.
    pub env: EnvPolicy,
    /// Network policy.
    pub network: NetworkPolicy,
    /// Wall-clock limit in seconds.
    pub timeout_secs: u64,
    /// Reproducibility settings.
    pub determinism: Determinism,
}

/// Each argument preceded by U+001F.
pub open spec fn args_text(args: Seq<String>) -> Seq<char>
    decreases args.len(),
{
    if args.len() == 0 {
        Seq::empty()
    } else {
        args_text(args.drop_last()) + seq!['\u{1f}'] + args.last()@
    }
}

/// Each explicit variable as U+001E, name, `=`, value.
pub open spec fn env_set_text(set: Seq<(String, String)>) -> Seq<char>
    decreases set.len(),
{
    if set.len() == 0 {
        Seq::empty()
    } else {
        env_set_text(set.drop_last()) + seq!['\u{1e}'] + set.last().0@ + seq!['='] + set.last().1@
    }
}

/// `Some(n)` or `None`, as `Debug` renders an optional number.
pub open spec fn option_text(o: Option<nat>) -> Seq<char> {
    match o {
        Some(n) => "Some("@ + decimal(n) + ")"@,
        None => "None"@,
    }
}

/// The optional thread count, widened.
pub open spec fn threads_nat(o: Option<u32>) -> Option<nat> {
    match o {
        Some(n) => Some(n as nat),
        None => None,
    }
}

/// The optional seed, widened.
pub open spec fn seed_nat(o: Option<u64>) -> Option<nat> {
    match o {
        Some(n) => Some(n as nat),
        None => None,
    }
}

/// `true` or `false`.
pub open spec fn bool_text(b: bool) -> Seq<char> {
    if b { "true"@ } else { "false"@ }
}

/// `Denied` or `Allowed`.
pub open spec fn network_text(n: NetworkPolicy) -> Seq<char> {
    match n {
        NetworkPolicy::Denied => "Denied"@,
        NetworkPolicy::Allowed => "Allowed"@,
    }
}

/// The stable description of a plan that gets digested into provenance:
/// everything that could change the result, separated by U+001F between
/// arguments and U+001E between fields.
pub open spec fn plan_digest_text(p: ProcessPlan) -> Seq<char> {
    p.program@ + args_text(p.args@) + seq!['\u{1e}'] + "cwd="@ + p.cwd@ + seq!['\u{1e}'] + "inherit="@
        + join_text(views(p.env.inherit@), ","@) + env_set_text(p.env.set@) + seq!['\u{1e}'] + "network="@
        + network_text(p.network) + seq!['\u{1e}'] + "timeout="@ + decimal(p.timeout_secs as nat) + seq!['\u{1e}']
        + "retries_disabled="@ + bool_text(p.determinism.retries_disabled) + seq!['\u{1e}'] + "threads="@
        + option_text(threads_nat(p.determinism.threads)) + seq!['\u{1e}'] + "seed="@ + option_text(
        seed_nat(p.determinism.seed),
    )
}

fn push_option(s: &mut String, o: Option<u64>)
    ensures
        final(s)@ == old(s)@ + option_text(seed_nat(o)),
{
    match o {
        Some(n) => {
            push_str(s, "Some(");
            push_u64(s, n);
            push_str(s, ")");
        },
        None => push_str(s, "None"),
    }
}

impl ProcessPlan {
    /// A plan with the safe defaults: no network, deterministic, ten
    /// minutes, run from the repository root.
    pub fn new(program: &str, args: Vec<String>) -> (p: ProcessPlan)
        ensures
            p.program@ == program@,
            p.args@ == args@,
            p.cwd@ == "."@,
            is_default_env(p.env),
            p.env.wf(),
            p.network == NetworkPolicy::Denied,
            p.timeout_secs == 600,
            p.determinism == (Determinism { retries_disabled: true, threads: Some(1u32), seed: Some(0u64) }),
    {
        let env = EnvPolicy::default();
        ProcessPlan {
            program: string_of(program),
            args,
            cwd: string_of("."),
            env,
            network: NetworkPolicy::Denied,
            timeout_secs: 600,
            determinism: Determinism::default(),
        }
    }

    /// A stable string describing this plan, for digesting into provenance.
    pub fn digest_input(&self) -> (s: String)
        requires
            self.env.wf(),
        ensures
            s@ == plan_digest_text(*self),
    {
        let mut s = string_of(self.program.as_str());
        let mut i: usize = 0;
        while i < self.args.len()
            invariant
                i <= self.args@.len(),
                s@ == self.program@ + args_text(self.args@.take(i as int)),
            decreases self.args@.len() - i,
        {
            proof {
                assert(self.args@.take(i as int + 1).drop_last() =~= self.args@.take(i as int));
            }
            push_char(&mut s, '\u{1f}');
            push_str(&mut s, self.args[i].as_str());
            i = i + 1;
        }
        proof {
            assert(self.args@.take(i as int) =~= self.args@);
        }
        push_char(&mut s, '\u{1e}');
        push_str(&mut s, "cwd=");
        push_str(&mut s, self.cwd.as_str());
        push_char(&mut s, '\u{1e}');
        push_str(&mut s, "inherit=");
        push_joined(&mut s, self.env.inherit.as_slice(), ",");
        let ghost before_set = s@;
        let mut j: usize = 0;
        while j < self.env.set.len()
            invariant
                j <= self.env.set@.len(),
                s@ == before_set + env_set_text(self.env.set@.take(j as int)),
            decreases self.env.set@.len() - j,
        {
            proof {
                assert(self.env.set@.take(j as int + 1).drop_last() =~= self.env.set@.take(j as int));
            }
            push_char(&mut s, '\u{1e}');
            push_str(&mut s, self.env.set[j].0.as_str());
            push_char(&mut s, '=');
            push_str(&mut s, self.env.set[j].1.as_str());
            j = j + 1;
        }
        proof {
            assert(self.env.set@.take(j as int) =~= self.env.set@);
        }
        push_char(&mut s, '\u{1e}');
        push_str(&mut s, "network=");
        match self.network {
            NetworkPolicy::Denied => push_str(&mut s, "Denied"),
            NetworkPolicy::Allowed => push_str(&mut s, "Allowed"),
        }
        push_char(&mut s, '\u{1e}');
        push_str(&mut s, "timeout=");
        push_u64(&mut s, self.timeout_secs);
        push_char(&mut s, '\u{1e}');
        push_str(&mut s, "retries_disabled=");
        if self.determinism.retries_disabled {
            push_str(&mut s, "true");
        } else {
            push_str(&mut s, "false");
        }
        push_char(&mut s, '\u{1e}');
        push_str(&mut s, "threads=");
        let threads: Option<u64> = match self.determinism.threads {
            Some(n) => Some(n as u64),
            None => None,
        };
        push_option(&mut s, threads);
        push_char(&mut s, '\u{1e}');
        push_str(&mut s, "seed=");
        push_option(&mut s, self.determinism.seed);
        proof {
            assert(seed_nat(threads) == threads_nat(self.determinism.threads));
            assert(s@ =~= plan_digest_text(*self));
        }
        s
    }
}

/// What a finished process produced.
#[derive(Clone, PartialEq, Eq, Debug)]
pub struct ProcessOutput {
    /// Exit code, or `None` when killed by a signal.
    pub exit_code: Option<i32>,
    /// Captured standard output.
    pub stdout: Vec<u8>,
    /// Captured standard error.
    pub stderr: Vec<u8>,
    /// How long it took, in milliseconds. Display only.
    pub duration_ms: u64,
    /// Whether the timeout fired: inconclusive, not a failure.
    pub timed_out: bool,
}

impl ProcessOutput {
    /// Whether the process exited zero and was not killed.
    pub fn succeeded(&self) -> (r: bool)
        ensures
            r == (!self.timed_out && self.exit_code == Some(0i32)),
    {
        !self.timed_out && match self.exit_code {
            Some(c) => c == 0,
            None => false,
        }
    }
}

/// Why a process could not be run at all.
#[derive(Clone, PartialEq, Eq, Debug)]
#[non_exhaustive]
pub enum ExecError {
    /// The program is not installed.
    NotFound {
        /// What we tried to run.
        program: String,
        /// The underlying reason.
        detail: String,
    },
    /// Spawning or waiting failed.
    Spawn {
        /// What we tried to run.
        program: String,
        /// The underlying reason.
        detail: String,
    },
}

/// The message of an execution failure.
pub open spec fn exec_error_text(e: ExecError) -> Seq<char> {
    match e {
        ExecError::NotFound { program, detail } => "`"@ + program@ + "` is not available: "@ + detail@,
        ExecError::Spawn { program, detail } => "could not run `"@ + program@ + "`: "@ + detail@,
    }
}

impl ExecError {
    /// The message, naming the program.
    pub fn to_string(&self) -> (s: String)
        ensures
            s@ == exec_error_text(*self),
    {
        match self {
            ExecError::NotFound { program, detail } => {
                let mut s = string_of("`");
                push_str(&mut s, program.as_str());
                push_str(&mut s, "` is not available: ");
                push_str(&mut s, detail.as_str());
                s
            },
            ExecError::Spawn { program, detail } => {
                let mut s = string_of("could not run `");
                push_str(&mut s, program.as_str());
                push_str(&mut s, "`: ");
                push_str(&mut s, detail.as_str());
                s
            },
        }
    }
}

} // verus!
