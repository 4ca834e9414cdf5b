//! Normalized evidence, and where it came from.
//!
//! Heterogeneous artifacts normalize into [`EvidenceFacts`]: a small closed
//! core (cases, located findings, integer metrics) plus an open bag. An
//! [`Evidence`] is produced only from a [`ParsedEvidence`], which is what a
//! parser returns on success; there is no conversion from a check-run
//! conclusion.

use vstd::prelude::*;
use crate::ids::{AdoptionSourceId, CapabilityId, MetricKey, ParserId};
use crate::json::Json;
use crate::location::{ranges_overlap, LineRange, Location};
use crate::schema::SchemaVersion;
use crate::text::string_of;
use crate::time::Timestamp;

verus! {

/// How a single case turned out.
#[derive(Clone, Copy, PartialEq, Eq, Structural, PartialOrd, Ord, Hash, Debug)]
#[non_exhaustive]
pub enum CaseStatus {
    /// The case passed.
    Pass,
    /// The case ran and failed.
    Fail,
    /// The case was not run.
    Skip,
    /// The case could not run: it did not compile, or the harness died.
    Error,
    /// The case exceeded its time budget.
    Timeout,
}

impl CaseStatus {
    /// Whether this status is a case that ran to a real conclusion: only a
    /// pass or a fail.
    pub fn is_conclusive(self) -> (r: bool)
        ensures
            r == (self == CaseStatus::Pass || self == CaseStatus::Fail),
    {
        match self {
            CaseStatus::Pass | CaseStatus::Fail => true,
            _ => false,
        }
    }
}

/// One test, mutant, or build configuration.
#[derive(Clone, PartialEq, Eq, Debug)]
pub struct CaseOutcome {
    /// Stable identifier, e.g. `kono_core::ring::tests::no_torn_read`.
    pub id: String,
    /// How it turned out.
    pub status: CaseStatus,
    /// Wall-clock duration in milliseconds. Display only.
    pub duration_ms: Option<u64>,
    /// Where the case lives.
    pub location: Option<Location>,
    /// How many times it was retried before this result.
    pub retries: u32,
    /// Failure message, when there was one.
    pub message: Option<String>,
}

/// How serious a finding is.
#[derive(Clone, Copy, PartialEq, Eq, Structural, PartialOrd, Ord, Hash, Debug)]
#[non_exhaustive]
pub enum Severity {
    /// Informational.
    Note,
    /// Should be looked at.
    Warning,
    /// Must be fixed.
    Error,
}

/// A finding with a source location.
#[derive(Clone, PartialEq, Eq, Debug)]
pub struct LocatedFinding {
    /// Where it is.
    pub location: Location,
    /// How serious.
    pub severity: Severity,
    /// The rule or check that produced it, e.g. `clippy::needless_borrow`.
    pub rule: Option<String>,
    /// What it says.
    pub message: String,
}

/// Whether a finding located at `lines` counts against `changed`: with no
/// line information it does, since it cannot be shown out of scope.
pub open spec fn finding_in_scope(lines: Option<LineRange>, changed: Seq<LineRange>) -> bool {
    match lines {
        None => true,
        Some(l) => exists|i: int| 0 <= i < changed.len() && ranges_overlap(#[trigger] changed[i], l),
    }
}

impl LocatedFinding {
    /// Whether this finding falls inside any of the given changed ranges.
    pub fn is_in_scope(&self, changed: &[LineRange]) -> (r: bool)
        ensures
            r == finding_in_scope(self.location.lines, changed@),
    {
        match self.location.lines {
            None => true,
            Some(lines) => {
                let mut i: usize = 0;
                while i < changed.len()
                    invariant
                        i <= changed@.len(),
                        self.location.lines == Some(lines),
                        forall|k: int| 0 <= k < i ==> !ranges_overlap(#[trigger] changed@[k], lines),
                    decreases changed@.len() - i,
                {
                    if changed[i].overlaps(&lines) {
                        proof {
                            assert(ranges_overlap(changed@[i as int], lines));
                        }
                        return true;
                    }
                    i = i + 1;
                }
                false
            },
        }
    }
}

/// A single measurement, as an integer with an explicit unit.
#[derive(Clone, PartialEq, Eq, Debug)]
pub struct Metric {
    /// The value, scaled by `unit`.
    pub value: i64,
    /// The unit, e.g. `ns`, `ppm`, `count`, `permille`.
    pub unit: String,
}

impl Metric {
    /// A count of things.
    pub fn count(value: i64) -> (m: Metric)
        ensures
            m.value == value,
            m.unit@ == "count"@,
    {
        Metric { value, unit: string_of("count") }
    }

    /// A proportion in parts per million, avoiding floats.
    pub fn ppm(value: i64) -> (m: Metric)
        ensures
            m.value == value,
            m.unit@ == "ppm"@,
    {
        Metric { value, unit: string_of("ppm") }
    }
}

/// The normalized content of an artifact.
#[derive(Clone, PartialEq, Eq, Debug)]
pub struct EvidenceFacts {
    /// Tests, mutants, powerset builds.
    pub cases: Vec<CaseOutcome>,
    /// Diagnostics with locations.
    pub findings: Vec<LocatedFinding>,
    /// Scalar measurements, ascending by key so serialization is stable.
    pub metrics: Vec<(MetricKey, Metric)>,
    /// Capability-private data, described by the capability's declaration.
    pub extra: Vec<(String, Json)>,
}

impl Default for EvidenceFacts {
    /// No cases, no findings, no metrics, nothing extra.
    fn default() -> (f: EvidenceFacts)
        ensures
            f.cases@.len() == 0,
            f.findings@.len() == 0,
            f.metrics@.len() == 0,
            f.extra@.len() == 0,
    {
        EvidenceFacts { cases: Vec::new(), findings: Vec::new(), metrics: Vec::new(), extra: Vec::new() }
    }
}

/// Whether a case did not pass: it failed, was skipped, or did not run to a
/// conclusion.
pub open spec fn did_not_pass(c: CaseOutcome) -> bool {
    c.status != CaseStatus::Pass
}

/// Whether a case could not run to a conclusion at all.
pub open spec fn is_inconclusive_case(c: CaseOutcome) -> bool {
    c.status == CaseStatus::Error || c.status == CaseStatus::Timeout
}

impl EvidenceFacts {
    /// Cases that did not pass, in order.
    pub fn failures(&self) -> (r: Vec<&CaseOutcome>)
        ensures
            r@.len() == self.cases@.filter(|c: CaseOutcome| did_not_pass(c)).len(),
            forall|i: int| 0 <= i < r@.len() ==> *r@[i] == self.cases@.filter(|c: CaseOutcome| did_not_pass(c))[i],
    {
        let mut r: Vec<&CaseOutcome> = Vec::new();
        let mut i: usize = 0;
        let ghost l = self.cases@;
        while i < self.cases.len()
            invariant
                l == self.cases@,
                i <= l.len(),
                r@.len() == l.take(i as int).filter(|c: CaseOutcome| did_not_pass(c)).len(),
                forall|k: int| 0 <= k < r@.len() ==> *r@[k] == l.take(i as int).filter(|c: CaseOutcome| did_not_pass(c))[k],
            decreases l.len() - i,
        {
            proof {
                reveal_with_fuel(Seq::filter, 1);
                assert(l.take(i as int + 1).drop_last() =~= l.take(i as int));
            }
            let c = &self.cases[i];
            if c.status != CaseStatus::Pass {
                r.push(c);
            }
            i = i + 1;
        }
        proof {
            assert(l.take(i as int) =~= l);
        }
        r
    }

    /// Whether any case failed to run at all, as opposed to running and
    /// failing.
    pub fn has_inconclusive_cases(&self) -> (r: bool)
        ensures
            r == exists|i: int| 0 <= i < self.cases@.len() && is_inconclusive_case(#[trigger] self.cases@[i]),
    {
        let mut i: usize = 0;
        while i < self.cases.len()
            invariant
                i <= self.cases@.len(),
                forall|k: int| 0 <= k < i ==> !is_inconclusive_case(#[trigger] self.cases@[k]),
            decreases self.cases@.len() - i,
        {
            let s = self.cases[i].status;
            if s == CaseStatus::Error || s == CaseStatus::Timeout {
                return true;
            }
            i = i + 1;
        }
        false
    }
}

/// A pointer to the artifact this evidence was parsed from.
#[derive(Clone, PartialEq, Eq, Debug)]
pub struct RawRef {
    /// Path within the uploaded artifact.
    pub path: String,
    /// The format, as the producer declared it.
    pub format: String,
    /// SHA-256 of the bytes actually parsed.
    pub sha256: String,
}

/// Who says so, and how do we know.
#[derive(Clone, PartialEq, Eq, Debug)]
#[non_exhaustive]
pub enum Provenance {
    /// Consumed from an artifact some other job already produced.
    Adopted {
        /// Where it was found.
        source: AdoptionSourceId,
        /// Which commit the producing run was for; checked against the head.
        produced_from_commit: String,
        /// When the producing run finished.
        produced_at: Timestamp,
        /// The workflow run, when known.
        workflow_run: Option<u64>,
        /// SHA-256 of the downloaded artifact.
        sha256: String,
    },
    /// Produced by vibe-check running a tool.
    Executed {
        /// Digest of the execution plan.
        plan_digest: String,
        /// Process exit code.
        exit_code: i32,
        /// When it started.
        started_at: Timestamp,
        /// How long it took, in milliseconds. Display only.
        duration_ms: u64,
        /// The toolchain that ran it.
        toolchain: String,
    },
    /// Asserted by configuration rather than measured. Never enough to
    /// satisfy a capability.
    Declared {
        /// Who declared it, e.g. a policy reference.
        by: String,
        /// Why.
        reason: String,
    },
}

impl Provenance {
    /// Whether this provenance can support a capability being satisfied: a
    /// declaration cannot.
    pub fn is_measured(&self) -> (r: bool)
        ensures
            r == !(*self is Declared),
    {
        match self {
            Provenance::Declared { .. } => false,
            _ => true,
        }
    }
}

/// The successful result of parsing an artifact: the only thing an
/// [`Evidence`] can be produced from.
#[derive(Clone, PartialEq, Eq, Debug)]
pub struct ParsedEvidence {
    capability: CapabilityId,
    parser: ParserId,
    facts: EvidenceFacts,
    raw: Option<RawRef>,
}

impl ParsedEvidence {
    /// The capability it answers.
    pub closed spec fn spec_capability(&self) -> CapabilityId {
        self.capability
    }

    /// The parser that produced it.
    pub closed spec fn spec_parser(&self) -> ParserId {
        self.parser
    }

    /// What was parsed.
    pub closed spec fn spec_facts(&self) -> EvidenceFacts {
        self.facts
    }

    /// The artifact it came from, if recorded.
    pub closed spec fn spec_raw(&self) -> Option<RawRef> {
        self.raw
    }

    /// Record a successful parse.
    pub fn new(capability: CapabilityId, parser: ParserId, facts: EvidenceFacts) -> (p: ParsedEvidence)
        ensures
            p.spec_capability() == capability,
            p.spec_parser() == parser,
            p.spec_facts() == facts,
            p.spec_raw() is None,
    {
        ParsedEvidence { capability, parser, facts, raw: None }
    }

    /// Attach a pointer to the artifact this came from.
    pub fn with_raw(self, raw: RawRef) -> (p: ParsedEvidence)
        ensures
            p.spec_capability() == self.spec_capability(),
            p.spec_parser() == self.spec_parser(),
            p.spec_facts() == self.spec_facts(),
            p.spec_raw() == Some(raw),
    {
        ParsedEvidence { raw: Some(raw), ..self }
    }
}

/// Normalized evidence about one capability.
#[derive(Clone, PartialEq, Eq, Debug)]
pub struct Evidence {
    schema: SchemaVersion,
    capability: CapabilityId,
    parser: Option<ParserId>,
    provenance: Provenance,
    facts: EvidenceFacts,
    raw: Option<RawRef>,
    unknown: Vec<(String, Json)>,
}

impl Evidence {
    /// The schema version it was written at.
    pub closed spec fn spec_schema(&self) -> SchemaVersion {
        self.schema
    }

    /// The capability it answers.
    pub closed spec fn spec_capability(&self) -> CapabilityId {
        self.capability
    }

    /// The parser that produced it.
    pub closed spec fn spec_parser(&self) -> Option<ParserId> {
        self.parser
    }

    /// Where it came from.
    pub closed spec fn spec_provenance(&self) -> Provenance {
        self.provenance
    }

    /// What it says.
    pub closed spec fn spec_facts(&self) -> EvidenceFacts {
        self.facts
    }

    /// The artifact it was parsed from.
    pub closed spec fn spec_raw(&self) -> Option<RawRef> {
        self.raw
    }

    /// Fields a newer build wrote, kept rather than dropped.
    pub closed spec fn spec_unknown(&self) -> Seq<(String, Json)> {
        self.unknown@
    }

    /// Build evidence from a successful parse: the only producer.
    pub fn from_parsed(parsed: ParsedEvidence, provenance: Provenance) -> (e: Evidence)
        ensures
            e.spec_schema() == SchemaVersion(1),
            e.spec_capability() == parsed.spec_capability(),
            e.spec_parser() == Some(parsed.spec_parser()),
            e.spec_provenance() == provenance,
            e.spec_facts() == parsed.spec_facts(),
            e.spec_raw() == parsed.spec_raw(),
            e.spec_unknown().len() == 0,
    {
        Evidence {
            schema: SchemaVersion::evidence(),
            capability: parsed.capability,
            parser: Some(parsed.parser),
            provenance,
            facts: parsed.facts,
            raw: parsed.raw,
            unknown: Vec::new(),
        }
    }

    /// Rehydrate evidence read back from a recorded bundle: the replay path,
    /// for evidence that went through a parser when it was first produced.
    pub fn from_record(
        schema: SchemaVersion,
        capability: CapabilityId,
        parser: Option<ParserId>,
        provenance: Provenance,
        facts: EvidenceFacts,
        raw: Option<RawRef>,
        unknown: Vec<(String, Json)>,
    ) -> (e: Evidence)
        ensures
            e.spec_schema() == schema,
            e.spec_capability() == capability,
            e.spec_parser() == parser,
            e.spec_provenance() == provenance,
            e.spec_facts() == facts,
            e.spec_raw() == raw,
            e.spec_unknown() == unknown@,
    {
        Evidence { schema, capability, parser, provenance, facts, raw, unknown }
    }

    /// The capability this answers.
    pub fn capability(&self) -> (c: &CapabilityId)
        ensures
            *c == self.spec_capability(),
    {
        &self.capability
    }

    /// The parser that produced it, if it came from an artifact.
    pub fn parser(&self) -> (p: Option<&ParserId>)
        ensures
            match p {
                Some(q) => self.spec_parser() == Some(*q),
                None => self.spec_parser() is None,
            },
    {
        match &self.parser {
            Some(p) => Some(p),
            None => None,
        }
    }

    /// Where it came from.
    pub fn provenance(&self) -> (p: &Provenance)
        ensures
            *p == self.spec_provenance(),
    {
        &self.provenance
    }

    /// The normalized content.
    pub fn facts(&self) -> (f: &EvidenceFacts)
        ensures
            *f == self.spec_facts(),
    {
        &self.facts
    }

    /// The artifact it was parsed from, if any.
    pub fn raw(&self) -> (r: Option<&RawRef>)
        ensures
            match r {
                Some(x) => self.spec_raw() == Some(*x),
                None => self.spec_raw() is None,
            },
    {
        match &self.raw {
            Some(x) => Some(x),
            None => None,
        }
    }

    /// The schema version it was written at.
    pub fn schema(&self) -> (s: SchemaVersion)
        ensures
            s == self.spec_schema(),
    {
        self.schema
    }

    /// Fields written by a newer build, preserved.
    pub fn unknown(&self) -> (u: &[(String, Json)])
        ensures
            u@ == self.spec_unknown(),
    {
        self.unknown.as_slice()
    }
}

/// Whether line `n` lies in the inclusive range `r`.
pub open spec fn holds_line(r: LineRange, n: int) -> bool {
    r.start <= n <= r.end
}

/// A finding with no line range is always in scope; one with a line range is
/// in scope exactly when some changed range shares a line with it.
pub proof fn law_a_finding_is_in_scope_when_it_shares_a_changed_line(l: LineRange, changed: Seq<LineRange>)
    requires
        l.start <= l.end,
        forall|i: int| 0 <= i < changed.len() ==> (#[trigger] changed[i]).start <= changed[i].end,
    ensures
        finding_in_scope(None, changed),
        finding_in_scope(Some(l), changed) <==> exists|i: int, n: int|
            0 <= i < changed.len() && #[trigger] holds_line(changed[i], n) && holds_line(l, n),
{
    if finding_in_scope(Some(l), changed) {
        let i = choose|i: int| 0 <= i < changed.len() && ranges_overlap(#[trigger] changed[i], l);
        let n: int = if changed[i].start >= l.start { changed[i].start as int } else { l.start as int };
        assert(holds_line(changed[i], n) && holds_line(l, n));
    }
    if exists|i: int, n: int| 0 <= i < changed.len() && #[trigger] holds_line(changed[i], n) && holds_line(l, n) {
        let (i, n) = choose|i: int, n: int| 0 <= i < changed.len() && #[trigger] holds_line(changed[i], n) && holds_line(l, n);
        assert(ranges_overlap(changed[i], l));
    }
}

/// A case is inconclusive exactly when it was attempted but did not run to a
/// conclusion: it was not skipped, and it neither passed nor failed. So a
/// case that errored or timed out is inconclusive, and none that passed,
/// failed or was skipped is.
pub proof fn law_inconclusive_means_attempted_without_a_conclusion(c: CaseOutcome)
    ensures
        is_inconclusive_case(c) <==> (c.status != CaseStatus::Skip && c.status != CaseStatus::Pass && c.status
            != CaseStatus::Fail),
{
}

} // verus!
