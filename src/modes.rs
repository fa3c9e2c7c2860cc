//! Compliance modes: enabling and suspending standards, snapshots taken while
//! a standard is suspended, deviation detection and the union of what the
//! active standards require.
use vstd::prelude::*;

use crate::entries::{
    add_member, entry_views, find_entry, has_member, lookup, set_entry,
};
use crate::text::{copy_string, str_eq, views};
use crate::time::{now_utc, Timestamp};

verus! {

/// A certification standard whose evidence rules can be enforced.
#[derive(Debug, Clone, Copy, PartialEq, Eq, Hash, Structural)]
pub enum ComplianceMode {
    Do178c,
    Do330,
    Arp4754a,
}

/// The state of the project when a mode was suspended: checksums of its
/// files, the requirements it traced and the files that held traces.
#[derive(Debug, PartialEq, Eq)]
pub struct ComplianceSnapshot {
    pub timestamp: Timestamp,
    pub file_checksums: Vec<(String, String)>,
    pub traced_requirements: Vec<String>,
    pub traced_files: Vec<String>,
}

impl ComplianceSnapshot {
    /// An empty snapshot taken now.
    pub fn new() -> (r: Self)
        ensures
            r.file_checksums@.len() == 0,
            r.traced_requirements@.len() == 0,
            r.traced_files@.len() == 0,
    {
        ComplianceSnapshot {
            timestamp: now_utc(),
            file_checksums: Vec::new(),
            traced_requirements: Vec::new(),
            traced_files: Vec::new(),
        }
    }

    /// Records `checksum` for `path`, replacing the checksum it had.
    pub fn set_file_checksum(&mut self, path: String, checksum: String)
        ensures
            final(self).timestamp == old(self).timestamp,
            final(self).traced_requirements == old(self).traced_requirements,
            final(self).traced_files == old(self).traced_files,
            lookup(entry_views(final(self).file_checksums@), path@) == Some(checksum@),
            forall|k: Seq<char>| k != path@ ==> lookup(entry_views(final(self).file_checksums@), k)
                == lookup(entry_views(old(self).file_checksums@), k),
    {
        set_entry(&mut self.file_checksums, path, checksum);
    }

    /// Records `id` as a traced requirement.
    pub fn add_traced_requirement(&mut self, id: String)
        ensures
            final(self).timestamp == old(self).timestamp,
            final(self).file_checksums == old(self).file_checksums,
            final(self).traced_files == old(self).traced_files,
            forall|k: Seq<char>| views(final(self).traced_requirements@).contains(k) <==> (
            views(old(self).traced_requirements@).contains(k) || k == id@),
    {
        add_member(&mut self.traced_requirements, id);
    }

    /// Records `path` as a traced file.
    pub fn add_traced_file(&mut self, path: String)
        ensures
            final(self).timestamp == old(self).timestamp,
            final(self).file_checksums == old(self).file_checksums,
            final(self).traced_requirements == old(self).traced_requirements,
            forall|k: Seq<char>| views(final(self).traced_files@).contains(k) <==> (views(
                old(self).traced_files@,
            ).contains(k) || k == path@),
    {
        add_member(&mut self.traced_files, path);
    }

    /// The checksum recorded for `path`.
    pub fn checksum_of(&self, path: &str) -> (r: Option<String>)
        ensures
            match r {
                Some(c) => lookup(entry_views(self.file_checksums@), path@) == Some(c@),
                None => lookup(entry_views(self.file_checksums@), path@) is None,
            },
    {
        find_entry(&self.file_checksums, path)
    }
}

} // verus!

verus! {

/// A divergence between a snapshot and the current state of the project.
#[derive(Debug, PartialEq, Eq)]
pub enum Deviation {
    NewUntracedFile { path: String },
    ModifiedFile { path: String, old_checksum: String, new_checksum: String },
    DeletedFile { path: String },
    BrokenTraceabilityLink { requirement_id: String, previous_file: String },
    NewCodeWithoutTraceability { file: String, lines: Vec<u32> },
    CoverageGap { file: String, description: String },
}

/// What a deviation says, as character sequences.
pub enum DeviationView {
    NewUntracedFile { path: Seq<char> },
    ModifiedFile { path: Seq<char>, old_checksum: Seq<char>, new_checksum: Seq<char> },
    DeletedFile { path: Seq<char> },
    BrokenTraceabilityLink { requirement_id: Seq<char>, previous_file: Seq<char> },
    NewCodeWithoutTraceability { file: Seq<char>, lines: Seq<u32> },
    CoverageGap { file: Seq<char>, description: Seq<char> },
}

impl View for Deviation {
    type V = DeviationView;

    open spec fn view(&self) -> DeviationView {
        match self {
            Deviation::NewUntracedFile { path } => DeviationView::NewUntracedFile { path: path@ },
            Deviation::ModifiedFile { path, old_checksum, new_checksum } => DeviationView::ModifiedFile {
                path: path@,
                old_checksum: old_checksum@,
                new_checksum: new_checksum@,
            },
            Deviation::DeletedFile { path } => DeviationView::DeletedFile { path: path@ },
            Deviation::BrokenTraceabilityLink { requirement_id, previous_file } => DeviationView::BrokenTraceabilityLink {
                requirement_id: requirement_id@,
                previous_file: previous_file@,
            },
            Deviation::NewCodeWithoutTraceability { file, lines } => DeviationView::NewCodeWithoutTraceability {
                file: file@,
                lines: lines@,
            },
            Deviation::CoverageGap { file, description } => DeviationView::CoverageGap {
                file: file@,
                description: description@,
            },
        }
    }
}

pub open spec fn deviation_views(v: Seq<Deviation>) -> Seq<DeviationView> {
    v.map_values(|d: Deviation| d@)
}

/// First pass: current files that the snapshot does not know and that hold
/// no trace, in the order of `current`.
pub open spec fn new_untraced(
    current: Seq<(Seq<char>, Seq<char>)>,
    snapshot: Seq<(Seq<char>, Seq<char>)>,
    traced_files: Seq<Seq<char>>,
) -> Seq<DeviationView>
    decreases current.len(),
{
    if current.len() == 0 {
        Seq::empty()
    } else {
        let p = current.last().0;
        new_untraced(current.drop_last(), snapshot, traced_files) + if lookup(snapshot, p) is None
            && !traced_files.contains(p) {
            seq![DeviationView::NewUntracedFile { path: p }]
        } else {
            Seq::empty()
        }
    }
}

/// Second pass: snapshot files whose checksum changed, or that are gone, in
/// the order of `snapshot`.
pub open spec fn changed_files(
    snapshot: Seq<(Seq<char>, Seq<char>)>,
    current: Seq<(Seq<char>, Seq<char>)>,
) -> Seq<DeviationView>
    decreases snapshot.len(),
{
    if snapshot.len() == 0 {
        Seq::empty()
    } else {
        let (p, c) = snapshot.last();
        changed_files(snapshot.drop_last(), current) + match lookup(current, p) {
            Some(n) => if n != c {
                seq![DeviationView::ModifiedFile { path: p, old_checksum: c, new_checksum: n }]
            } else {
                Seq::empty()
            },
            None => seq![DeviationView::DeletedFile { path: p }],
        }
    }
}

/// Third pass: requirements traced in the snapshot that are traced no more,
/// in the order of the snapshot.
pub open spec fn broken_links(traced: Seq<Seq<char>>, current: Seq<Seq<char>>) -> Seq<DeviationView>
    decreases traced.len(),
{
    if traced.len() == 0 {
        Seq::empty()
    } else {
        let r = traced.last();
        broken_links(traced.drop_last(), current) + if !current.contains(r) {
            seq![DeviationView::BrokenTraceabilityLink { requirement_id: r, previous_file: "unknown"@ }]
        } else {
            Seq::empty()
        }
    }
}

/// All deviations of the current state from `snapshot`, pass by pass.
pub open spec fn deviations_spec(
    snapshot: ComplianceSnapshot,
    current_files: Seq<(Seq<char>, Seq<char>)>,
    current_traced_requirements: Seq<Seq<char>>,
    current_traced_files: Seq<Seq<char>>,
) -> Seq<DeviationView> {
    new_untraced(current_files, entry_views(snapshot.file_checksums@), current_traced_files)
        + changed_files(entry_views(snapshot.file_checksums@), current_files) + broken_links(
        views(snapshot.traced_requirements@),
        current_traced_requirements,
    )
}

proof fn lemma_prefix_views(v: Seq<(String, String)>, i: int)
    requires
        0 <= i < v.len(),
    ensures
        entry_views(v.subrange(0, i + 1)).drop_last() == entry_views(v.subrange(0, i)),
        entry_views(v.subrange(0, i + 1)).last() == (v[i].0@, v[i].1@),
        entry_views(v.subrange(0, i + 1)).len() == i + 1,
{
    assert(entry_views(v.subrange(0, i + 1)).drop_last() =~= entry_views(v.subrange(0, i)));
}

/// Compares the current state of a project with `snapshot`: first the new
/// files that hold no trace, then the modified and deleted files, then the
/// requirements that are traced no more.
pub fn detect_deviations(
    snapshot: &ComplianceSnapshot,
    current_files: &Vec<(String, String)>,
    current_traced_requirements: &Vec<String>,
    current_traced_files: &Vec<String>,
) -> (r: Vec<Deviation>)
    ensures
        deviation_views(r@) == deviations_spec(
            *snapshot,
            entry_views(current_files@),
            views(current_traced_requirements@),
            views(current_traced_files@),
        ),
{
    let ghost snap = entry_views(snapshot.file_checksums@);
    let ghost cur = entry_views(current_files@);
    let ghost tf = views(current_traced_files@);
    let mut out: Vec<Deviation> = Vec::new();
    let mut i: usize = 0;
    assert(deviation_views(out@) =~= Seq::<DeviationView>::empty());
    while i < current_files.len()
        invariant
            i <= current_files.len(),
            snap == entry_views(snapshot.file_checksums@),
            cur == entry_views(current_files@),
            tf == views(current_traced_files@),
            deviation_views(out@) == new_untraced(entry_views(current_files@.subrange(0, i as int)), snap, tf),
        decreases current_files.len() - i,
    {
        proof {
            lemma_prefix_views(current_files@, i as int);
        }
        let p = &current_files[i].0;
        let ghost before = out@;
        if find_entry(&snapshot.file_checksums, p.as_str()).is_none() && !has_member(current_traced_files, p.as_str()) {
            out.push(Deviation::NewUntracedFile { path: copy_string(p) });
            assert(deviation_views(out@) =~= deviation_views(before).push(out@.last()@));
        }
        i += 1;
    }
    assert(current_files@.subrange(0, i as int) =~= current_files@);
    let ghost pass1 = deviation_views(out@);
    let mut j: usize = 0;
    while j < snapshot.file_checksums.len()
        invariant
            j <= snapshot.file_checksums.len(),
            snap == entry_views(snapshot.file_checksums@),
            cur == entry_views(current_files@),
            deviation_views(out@) == pass1 + changed_files(entry_views(snapshot.file_checksums@.subrange(0, j as int)), cur),
        decreases snapshot.file_checksums.len() - j,
    {
        proof {
            lemma_prefix_views(snapshot.file_checksums@, j as int);
        }
        let (p, c) = &snapshot.file_checksums[j];
        let ghost before = out@;
        match find_entry(current_files, p.as_str()) {
            Some(n) => {
                if !str_eq(n.as_str(), c.as_str()) {
                    out.push(Deviation::ModifiedFile { path: copy_string(p), old_checksum: copy_string(c), new_checksum: n });
                    assert(deviation_views(out@) =~= deviation_views(before).push(out@.last()@));
                }
            },
            None => {
                out.push(Deviation::DeletedFile { path: copy_string(p) });
                assert(deviation_views(out@) =~= deviation_views(before).push(out@.last()@));
            },
        }
        j += 1;
    }
    assert(snapshot.file_checksums@.subrange(0, j as int) =~= snapshot.file_checksums@);
    let ghost pass2 = deviation_views(out@);
    let reqs = &snapshot.traced_requirements;
    let mut k: usize = 0;
    while k < reqs.len()
        invariant
            k <= reqs.len(),
            reqs == &snapshot.traced_requirements,
            deviation_views(out@) == pass2 + broken_links(views(reqs@.subrange(0, k as int)), views(current_traced_requirements@)),
        decreases reqs.len() - k,
    {
        proof {
            assert(views(reqs@.subrange(0, k + 1)).drop_last() =~= views(reqs@.subrange(0, k as int)));
            assert(views(reqs@.subrange(0, k + 1)).last() == reqs@[k as int]@);
        }
        let ghost before = out@;
        if !has_member(current_traced_requirements, reqs[k].as_str()) {
            proof {
                reveal_strlit("unknown");
            }
            out.push(Deviation::BrokenTraceabilityLink { requirement_id: copy_string(&reqs[k]), previous_file: String::from_str("unknown") });
            assert(deviation_views(out@) =~= deviation_views(before).push(out@.last()@));
        }
        k += 1;
    }
    assert(reqs@.subrange(0, k as int) =~= reqs@);
    assert(deviation_views(out@) =~= deviations_spec(*snapshot, cur, views(current_traced_requirements@), tf));
    out
}

} // verus!

verus! {

/// The deviations found for a mode between its suspension and now.
#[derive(Debug)]
pub struct DeviationReport {
    pub mode: ComplianceMode,
    pub disabled_at: Timestamp,
    pub re_enabled_at: Timestamp,
    pub deviations: Vec<Deviation>,
}

impl DeviationReport {
    /// An empty report for `mode`, suspended at `disabled_at`, made now.
    pub fn new(mode: ComplianceMode, disabled_at: Timestamp) -> (r: Self)
        ensures
            r.mode == mode,
            r.disabled_at == disabled_at,
            r.deviations@.len() == 0,
    {
        DeviationReport { mode, disabled_at, re_enabled_at: now_utc(), deviations: Vec::new() }
    }

    /// Appends a deviation.
    pub fn add_deviation(&mut self, deviation: Deviation)
        ensures
            final(self).mode == old(self).mode,
            final(self).disabled_at == old(self).disabled_at,
            final(self).re_enabled_at == old(self).re_enabled_at,
            final(self).deviations@ == old(self).deviations@.push(deviation),
    {
        self.deviations.push(deviation);
    }

    pub fn deviation_count(&self) -> (r: usize)
        ensures
            r == self.deviations@.len(),
    {
        self.deviations.len()
    }

    pub fn has_deviations(&self) -> (r: bool)
        ensures
            r == (self.deviations@.len() > 0),
    {
        self.deviations.len() > 0
    }
}

/// Which kinds of evidence the active standards require.
#[derive(Debug, Clone, Copy, PartialEq, Eq, Structural)]
pub struct ComplianceRequirements {
    pub requires_traceability: bool,
    pub requires_coverage: bool,
    pub requires_structural_coverage: bool,
    pub requires_tool_qualification: bool,
    pub requires_tool_usage_logging: bool,
    pub requires_system_traceability: bool,
    pub requires_safety_assessment: bool,
}

impl Default for ComplianceRequirements {
    fn default() -> (r: Self)
        ensures
            !r.any(),
    {
        ComplianceRequirements {
            requires_traceability: false,
            requires_coverage: false,
            requires_structural_coverage: false,
            requires_tool_qualification: false,
            requires_tool_usage_logging: false,
            requires_system_traceability: false,
            requires_safety_assessment: false,
        }
    }
}

impl ComplianceRequirements {
    pub open spec fn any(&self) -> bool {
        self.requires_traceability || self.requires_coverage || self.requires_structural_coverage
            || self.requires_tool_qualification || self.requires_tool_usage_logging
            || self.requires_system_traceability || self.requires_safety_assessment
    }

    /// Whether any kind of evidence is required.
    pub fn has_any_requirements(&self) -> (r: bool)
        ensures
            r == self.any(),
    {
        self.requires_traceability || self.requires_coverage || self.requires_structural_coverage
            || self.requires_tool_qualification || self.requires_tool_usage_logging
            || self.requires_system_traceability || self.requires_safety_assessment
    }

    /// Every flag set here is set in `other` too.
    pub open spec fn implied_by(&self, other: Self) -> bool {
        &&& self.requires_traceability ==> other.requires_traceability
        &&& self.requires_coverage ==> other.requires_coverage
        &&& self.requires_structural_coverage ==> other.requires_structural_coverage
        &&& self.requires_tool_qualification ==> other.requires_tool_qualification
        &&& self.requires_tool_usage_logging ==> other.requires_tool_usage_logging
        &&& self.requires_system_traceability ==> other.requires_system_traceability
        &&& self.requires_safety_assessment ==> other.requires_safety_assessment
    }
}

/// What each standard requires on its own.
pub open spec fn contribution(mode: ComplianceMode) -> ComplianceRequirements {
    ComplianceRequirements {
        requires_traceability: mode == ComplianceMode::Do178c,
        requires_coverage: mode == ComplianceMode::Do178c,
        requires_structural_coverage: mode == ComplianceMode::Do178c,
        requires_tool_qualification: mode == ComplianceMode::Do330,
        requires_tool_usage_logging: mode == ComplianceMode::Do330,
        requires_system_traceability: mode == ComplianceMode::Arp4754a,
        requires_safety_assessment: mode == ComplianceMode::Arp4754a,
    }
}

/// Whether a mode is enforced, and the snapshot taken when it was suspended.
#[derive(Debug)]
pub struct ModeState {
    pub enabled: bool,
    pub snapshot: Option<ComplianceSnapshot>,
}

/// The compliance modes of a project, each enabled or suspended, with the
/// snapshot of each suspended mode.
#[derive(Debug)]
pub struct ComplianceSystem {
    pub do178c: ModeState,
    pub do330: ModeState,
    pub arp4754a: ModeState,
}

impl ComplianceSystem {
    pub open spec fn state(&self, mode: ComplianceMode) -> ModeState {
        match mode {
            ComplianceMode::Do178c => self.do178c,
            ComplianceMode::Do330 => self.do330,
            ComplianceMode::Arp4754a => self.arp4754a,
        }
    }

    pub open spec fn is_enabled(&self, mode: ComplianceMode) -> bool {
        self.state(mode).enabled
    }

    pub open spec fn snapshot_of(&self, mode: ComplianceMode) -> Option<ComplianceSnapshot> {
        self.state(mode).snapshot
    }

    /// No mode is both enabled and holding a snapshot.
    pub open spec fn wf(&self) -> bool {
        forall|m: ComplianceMode| #[trigger] self.is_enabled(m) ==> self.snapshot_of(m) is None
    }

    /// This system with the state of `mode` replaced.
    pub open spec fn with_state(&self, mode: ComplianceMode, s: ModeState) -> Self {
        match mode {
            ComplianceMode::Do178c => ComplianceSystem { do178c: s, ..*self },
            ComplianceMode::Do330 => ComplianceSystem { do330: s, ..*self },
            ComplianceMode::Arp4754a => ComplianceSystem { arp4754a: s, ..*self },
        }
    }

    /// The system after enabling `mode`: its snapshot, if any, is consumed.
    pub open spec fn enabled_spec(&self, mode: ComplianceMode) -> Self {
        self.with_state(mode, ModeState { enabled: true, snapshot: None })
    }

    /// The system after suspending `mode` with snapshot `s`; nothing changes
    /// where the mode is not enabled.
    pub open spec fn disabled_spec(&self, mode: ComplianceMode, s: ComplianceSnapshot) -> Self {
        if self.is_enabled(mode) {
            self.with_state(mode, ModeState { enabled: false, snapshot: Some(s) })
        } else {
            *self
        }
    }

    /// The flags required by the enabled modes: each flag is set exactly when
    /// some enabled mode requires it.
    pub open spec fn requirements_spec(&self) -> ComplianceRequirements {
        ComplianceRequirements {
            requires_traceability: self.is_enabled(ComplianceMode::Do178c),
            requires_coverage: self.is_enabled(ComplianceMode::Do178c),
            requires_structural_coverage: self.is_enabled(ComplianceMode::Do178c),
            requires_tool_qualification: self.is_enabled(ComplianceMode::Do330),
            requires_tool_usage_logging: self.is_enabled(ComplianceMode::Do330),
            requires_system_traceability: self.is_enabled(ComplianceMode::Arp4754a),
            requires_safety_assessment: self.is_enabled(ComplianceMode::Arp4754a),
        }
    }

    /// No mode enabled, no snapshot held.
    pub fn new() -> (r: Self)
        ensures
            r.wf(),
            forall|m: ComplianceMode| !(#[trigger] r.is_enabled(m)) && r.snapshot_of(m) is None,
    {
        ComplianceSystem {
            do178c: ModeState { enabled: false, snapshot: None },
            do330: ModeState { enabled: false, snapshot: None },
            arp4754a: ModeState { enabled: false, snapshot: None },
        }
    }

    fn set_state(&mut self, mode: ComplianceMode, st: ModeState)
        ensures
            *final(self) == old(self).with_state(mode, st),
    {
        match mode {
            ComplianceMode::Do178c => {
                self.do178c = st;
            },
            ComplianceMode::Do330 => {
                self.do330 = st;
            },
            ComplianceMode::Arp4754a => {
                self.arp4754a = st;
            },
        }
    }

    fn take_snapshot(&mut self, mode: ComplianceMode) -> (r: Option<ComplianceSnapshot>)
        ensures
            r == old(self).snapshot_of(mode),
            *final(self) == old(self).with_state(mode, ModeState { enabled: old(self).is_enabled(mode), snapshot: None }),
    {
        match mode {
            ComplianceMode::Do178c => self.do178c.snapshot.take(),
            ComplianceMode::Do330 => self.do330.snapshot.take(),
            ComplianceMode::Arp4754a => self.arp4754a.snapshot.take(),
        }
    }

    /// Whether `mode` is enforced.
    pub fn is_mode_enabled(&self, mode: ComplianceMode) -> (r: bool)
        ensures
            r == self.is_enabled(mode),
    {
        match mode {
            ComplianceMode::Do178c => self.do178c.enabled,
            ComplianceMode::Do330 => self.do330.enabled,
            ComplianceMode::Arp4754a => self.arp4754a.enabled,
        }
    }

    /// Enforces `mode`. Where the mode was suspended with a snapshot, the
    /// snapshot is consumed and a report is returned that carries the mode and
    /// the snapshot's time, with no deviations yet; otherwise `None`.
    pub fn enable_mode(&mut self, mode: ComplianceMode) -> (r: Option<DeviationReport>)
        requires
            old(self).wf(),
        ensures
            final(self).wf(),
            *final(self) == old(self).enabled_spec(mode),
            match old(self).snapshot_of(mode) {
                Some(s) => r matches Some(rep) && rep.mode == mode && rep.disabled_at == s.timestamp
                    && rep.deviations@.len() == 0,
                None => r is None,
            },
    {
        let snap = self.take_snapshot(mode);
        self.set_state(mode, ModeState { enabled: true, snapshot: None });
        proof {
            let o = *old(self);
            assert(*self == o.enabled_spec(mode));
            assert forall|m: ComplianceMode| #[trigger] self.is_enabled(m) implies self.snapshot_of(m) is None by {
                lemma_with_state(o, mode, self.state(mode));
                if m != mode {
                    assert(self.state(m) == o.state(m));
                    assert(o.is_enabled(m));
                }
            }
        }
        match snap {
            Some(s) => Some(DeviationReport::new(mode, s.timestamp)),
            None => None,
        }
    }

    /// Suspends `mode` where it is enforced, keeping `snapshot` (or an empty
    /// snapshot taken now) until it is enforced again; otherwise does nothing.
    pub fn disable_mode(&mut self, mode: ComplianceMode, snapshot: Option<ComplianceSnapshot>)
        requires
            old(self).wf(),
        ensures
            final(self).wf(),
            old(self).is_enabled(mode) ==> (final(self).snapshot_of(mode) matches Some(s) && *final(self)
                == old(self).disabled_spec(mode, s) && match snapshot {
                Some(given) => s == given,
                None => s.file_checksums@.len() == 0 && s.traced_requirements@.len() == 0
                    && s.traced_files@.len() == 0,
            }),
            !old(self).is_enabled(mode) ==> *final(self) == *old(self),
    {
        if self.is_mode_enabled(mode) {
            let s = match snapshot {
                Some(given) => given,
                None => ComplianceSnapshot::new(),
            };
            let st = ModeState { enabled: false, snapshot: Some(s) };
            let ghost gst = st;
            self.set_state(mode, st);
            proof {
                let o = *old(self);
                lemma_with_state(o, mode, gst);
                assert(*self == o.with_state(mode, gst));
                assert forall|m: ComplianceMode| #[trigger] self.is_enabled(m) implies self.snapshot_of(m) is None by {
                    if m != mode {
                        assert(self.state(m) == o.state(m));
                        assert(o.is_enabled(m));
                    }
                }
            }
        }
    }

    /// The snapshot kept for `mode`, if it is suspended.
    pub fn get_snapshot(&self, mode: ComplianceMode) -> (r: Option<&ComplianceSnapshot>)
        ensures
            match r {
                Some(s) => self.snapshot_of(mode) == Some(*s),
                None => self.snapshot_of(mode) is None,
            },
    {
        match mode {
            ComplianceMode::Do178c => self.do178c.snapshot.as_ref(),
            ComplianceMode::Do330 => self.do330.snapshot.as_ref(),
            ComplianceMode::Arp4754a => self.arp4754a.snapshot.as_ref(),
        }
    }

    /// The enforced modes, in the order DO-178C, DO-330, ARP4754A.
    pub fn enabled_modes(&self) -> (r: Vec<ComplianceMode>)
        ensures
            forall|m: ComplianceMode| r@.contains(m) <==> self.is_enabled(m),
            r@.no_duplicates(),
    {
        let mut r: Vec<ComplianceMode> = Vec::new();
        if self.do178c.enabled {
            r.push(ComplianceMode::Do178c);
        }
        if self.do330.enabled {
            r.push(ComplianceMode::Do330);
        }
        if self.arp4754a.enabled {
            r.push(ComplianceMode::Arp4754a);
        }
        proof {
            assert forall|m: ComplianceMode| r@.contains(m) <==> self.is_enabled(m) by {
                if self.is_enabled(m) {
                    let i = if m == ComplianceMode::Do178c {
                        0int
                    } else if m == ComplianceMode::Do330 {
                        if self.do178c.enabled { 1int } else { 0int }
                    } else {
                        (if self.do178c.enabled { 1int } else { 0int }) + (if self.do330.enabled { 1int } else { 0int })
                    };
                    assert(r@[i] == m);
                }
            }
        }
        r
    }

    /// Whether some mode is enforced.
    pub fn has_any_mode_enabled(&self) -> (r: bool)
        ensures
            r == exists|m: ComplianceMode| self.is_enabled(m),
    {
        let r = self.do178c.enabled || self.do330.enabled || self.arp4754a.enabled;
        proof {
            if r {
                if self.do178c.enabled {
                    assert(self.is_enabled(ComplianceMode::Do178c));
                } else if self.do330.enabled {
                    assert(self.is_enabled(ComplianceMode::Do330));
                } else {
                    assert(self.is_enabled(ComplianceMode::Arp4754a));
                }
            }
        }
        r
    }

    /// Stops enforcing every mode; no snapshot is taken, kept ones stay.
    pub fn disable_all_modes(&mut self)
        requires
            old(self).wf(),
        ensures
            final(self).wf(),
            forall|m: ComplianceMode| !(#[trigger] final(self).is_enabled(m)) && final(self).snapshot_of(m)
                == old(self).snapshot_of(m),
    {
        self.do178c.enabled = false;
        self.do330.enabled = false;
        self.arp4754a.enabled = false;
    }

    /// What the enforced modes require together: a flag is set exactly when
    /// some enforced mode requires it.
    pub fn get_active_requirements(&self) -> (r: ComplianceRequirements)
        ensures
            r == self.requirements_spec(),
    {
        let mut r = ComplianceRequirements::default();
        if self.do178c.enabled {
            r.requires_traceability = true;
            r.requires_coverage = true;
            r.requires_structural_coverage = true;
        }
        if self.do330.enabled {
            r.requires_tool_qualification = true;
            r.requires_tool_usage_logging = true;
        }
        if self.arp4754a.enabled {
            r.requires_system_traceability = true;
            r.requires_safety_assessment = true;
        }
        r
    }

    /// The full comparison of the current state with the snapshot of `mode`:
    /// `None` where the mode holds no snapshot.
    pub fn generate_deviation_report(
        &self,
        mode: ComplianceMode,
        current_files: &Vec<(String, String)>,
        current_traced_requirements: &Vec<String>,
        current_traced_files: &Vec<String>,
    ) -> (r: Option<DeviationReport>)
        ensures
            match self.snapshot_of(mode) {
                Some(s) => r matches Some(rep) && rep.mode == mode && rep.disabled_at == s.timestamp
                    && deviation_views(rep.deviations@) == deviations_spec(
                    s,
                    entry_views(current_files@),
                    views(current_traced_requirements@),
                    views(current_traced_files@),
                ),
                None => r is None,
            },
    {
        match self.get_snapshot(mode) {
            Some(s) => {
                let deviations = detect_deviations(s, current_files, current_traced_requirements, current_traced_files);
                let mut rep = DeviationReport::new(mode, s.timestamp);
                rep.deviations = deviations;
                Some(rep)
            },
            None => None,
        }
    }
}

pub proof fn lemma_with_state(sys: ComplianceSystem, mode: ComplianceMode, st: ModeState)
    ensures
        forall|m: ComplianceMode| #[trigger] sys.with_state(mode, st).state(m) == if m == mode {
            st
        } else {
            sys.state(m)
        },
{
}

/// Suspending an enforced mode with a snapshot and enforcing it again gives a
/// report dated with the snapshot's time, and the snapshot is gone afterwards.
pub proof fn law_snapshot_consumed_on_enable(sys: ComplianceSystem, mode: ComplianceMode, snap: ComplianceSnapshot)
    requires
        sys.wf(),
        sys.is_enabled(mode),
    ensures
        sys.disabled_spec(mode, snap).wf(),
        sys.disabled_spec(mode, snap).snapshot_of(mode) == Some(snap),
        !sys.disabled_spec(mode, snap).is_enabled(mode),
        sys.disabled_spec(mode, snap).enabled_spec(mode).snapshot_of(mode) is None,
        sys.disabled_spec(mode, snap).enabled_spec(mode).is_enabled(mode),
        forall|m: ComplianceMode| m != mode ==> #[trigger] sys.disabled_spec(mode, snap).enabled_spec(mode).state(m) == sys.state(m),
{
    let d = sys.disabled_spec(mode, snap);
    lemma_with_state(sys, mode, ModeState { enabled: false, snapshot: Some(snap) });
    lemma_with_state(d, mode, ModeState { enabled: true, snapshot: None });
    assert forall|m: ComplianceMode| #[trigger] d.is_enabled(m) implies d.snapshot_of(m) is None by {
        if m != mode {
            assert(sys.is_enabled(m));
        }
    }
}

/// Enforcing one more mode clears no flag that was required before, and adds
/// the flags of that mode.
pub proof fn law_enable_only_adds_requirements(sys: ComplianceSystem, mode: ComplianceMode)
    ensures
        sys.requirements_spec().implied_by(sys.enabled_spec(mode).requirements_spec()),
        contribution(mode).implied_by(sys.enabled_spec(mode).requirements_spec()),
{
}

/// The required flags are the union of the contributions of the enforced modes.
pub proof fn law_requirements_are_union(sys: ComplianceSystem)
    ensures
        forall|m: ComplianceMode| #[trigger] sys.is_enabled(m) ==> contribution(m).implied_by(sys.requirements_spec()),
        sys.requirements_spec().requires_traceability ==> exists|m: ComplianceMode| sys.is_enabled(m) && contribution(m).requires_traceability,
        sys.requirements_spec().requires_tool_qualification ==> exists|m: ComplianceMode| sys.is_enabled(m) && contribution(m).requires_tool_qualification,
        sys.requirements_spec().requires_system_traceability ==> exists|m: ComplianceMode| sys.is_enabled(m) && contribution(m).requires_system_traceability,
{
    if sys.requirements_spec().requires_traceability {
        assert(contribution(ComplianceMode::Do178c).requires_traceability);
    }
    if sys.requirements_spec().requires_tool_qualification {
        assert(contribution(ComplianceMode::Do330).requires_tool_qualification);
    }
    if sys.requirements_spec().requires_system_traceability {
        assert(contribution(ComplianceMode::Arp4754a).requires_system_traceability);
    }
}

} // verus!
