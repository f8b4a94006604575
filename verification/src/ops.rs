use crate::guardrails::GuardrailReport;
use crate::islands::IslandProfiler;
use crate::persist::ArchiveStats;
use crate::rww::RwwStatus;
use crate::shard::ShardNodeStatus;
use crate::text::{bool_str, bool_text, decimal, digit_char, escape_label, escaped_label, lemma_decimal_canonical, push_decimal};
use crate::persist::is_digit;
use vstd::prelude::*;

verus! {

/// Version reported by the operations snapshot.
pub const VERSION: &'static str = "0.1.0";

/// One named health check.
#[derive(Clone, Debug)]
pub struct HealthCheck {
    pub name: String,
    pub ok: bool,
    pub detail: String,
}

/// Operational figures of one frame.
#[derive(Clone, Debug)]
pub struct FrameOps {
    pub name: String,
    pub ruleset: String,
    pub tick: u64,
    pub entities: usize,
    pub fwau_count: usize,
    pub island_profiler: Option<IslandProfiler>,
    pub guardrails: Option<GuardrailReport>,
}

/// Health, readiness and metrics of a deployment.
#[derive(Clone, Debug)]
pub struct OpsSnapshot {
    pub version: String,
    pub status: String,
    pub ready: bool,
    pub node: ShardNodeStatus,
    pub archive: Option<ArchiveStats>,
    pub rww: RwwStatus,
    pub active_sessions: usize,
    pub frames: Vec<FrameOps>,
    pub checks: Vec<HealthCheck>,
}

/// One Prometheus sample line.
pub open spec fn metric_line(name: Seq<char>, labels: Seq<char>, value: nat) -> Seq<char> {
    if labels.len() == 0 {
        name + " "@ + decimal(value) + "\n"@
    } else {
        name + "{"@ + labels + "} "@ + decimal(value) + "\n"@
    }
}

pub open spec fn flag(b: bool) -> nat {
    if b { 1 } else { 0 }
}

/// Labels that identify a frame's samples.
pub open spec fn frame_labels(f: FrameOps) -> Seq<char> {
    "frame=\""@ + escaped_label(f.name@) + "\",ruleset=\""@ + escaped_label(f.ruleset@) + "\""@
}

/// The samples of one frame.
pub open spec fn frame_metrics(f: FrameOps) -> Seq<char> {
    let l = frame_labels(f);
    metric_line("tbc_tick"@, l, f.tick as nat) + metric_line("tbc_entities"@, l, f.entities as nat)
        + metric_line("tbc_fwau_count"@, l, f.fwau_count as nat) + match f.island_profiler {
        Some(p) => metric_line("tbc_island_count"@, l, p.island_count as nat) + metric_line(
            "tbc_beam_steps_last_tick"@,
            l,
            p.total_steps_last_tick as nat,
        ),
        None => Seq::empty(),
    } + match f.guardrails {
        Some(g) => metric_line("tbc_guardrail_stalls"@, l, g.stall_count as nat) + metric_line(
            "tbc_guardrail_overruns"@,
            l,
            g.budget_overruns as nat,
        ) + metric_line("tbc_guardrail_rate_limited"@, l, g.rate_limited as nat) + metric_line(
            "tbc_guardrail_throttled_ticks"@,
            l,
            g.throttled_ticks as nat,
        ) + metric_line("tbc_guardrail_within_budget"@, l, flag(g.within_budget)),
        None => Seq::empty(),
    }
}

pub open spec fn frames_metrics(fs: Seq<FrameOps>) -> Seq<char>
    decreases fs.len(),
{
    if fs.len() == 0 {
        Seq::empty()
    } else {
        frames_metrics(fs.drop_last()) + frame_metrics(fs.last())
    }
}

/// The Prometheus exposition of a snapshot.
pub open spec fn prometheus_text(s: OpsSnapshot) -> Seq<char> {
    metric_line("tbc_info"@, "version=\""@ + s.version@ + "\""@, 1) + metric_line(
        "tbc_ready"@,
        Seq::empty(),
        flag(s.ready),
    ) + metric_line("tbc_sessions_active"@, Seq::empty(), s.active_sessions as nat) + metric_line(
        "tbc_frames"@,
        Seq::empty(),
        s.frames@.len(),
    ) + metric_line("tbc_rww_connected"@, Seq::empty(), flag(s.rww.connected)) + match s.archive {
        Some(a) => metric_line("tbc_archive_souls"@, Seq::empty(), a.souls as nat) + metric_line(
            "tbc_archive_packets"@,
            Seq::empty(),
            a.packets as nat,
        ),
        None => Seq::empty(),
    } + frames_metrics(s.frames@)
}

/// Appends one sample line.
fn append_metric(out: &mut String, name: &str, labels: &str, value: u128)
    ensures
        final(out)@ == old(out)@ + metric_line(name@, labels@, value as nat),
{
    proof {
        reveal_strlit(" ");
        reveal_strlit("\n");
        reveal_strlit("{");
        reveal_strlit("} ");
    }
    let ghost start = out@;
    out.append(name);
    if labels.unicode_len() == 0 {
        out.append(" ");
    } else {
        out.append("{");
        out.append(labels);
        out.append("} ");
    }
    push_decimal(out, value);
    out.append("\n");
    proof {
        assert(out@ =~= start + metric_line(name@, labels@, value as nat));
    }
}

fn flag_value(b: bool) -> (v: u128)
    ensures
        v == flag(b),
{
    if b { 1 } else { 0 }
}

pub open spec fn profiler_metrics(p: Option<IslandProfiler>, l: Seq<char>) -> Seq<char> {
    match p {
        Some(p) => metric_line("tbc_island_count"@, l, p.island_count as nat) + metric_line(
            "tbc_beam_steps_last_tick"@,
            l,
            p.total_steps_last_tick as nat,
        ),
        None => Seq::empty(),
    }
}

pub open spec fn guardrail_metrics(g: Option<GuardrailReport>, l: Seq<char>) -> Seq<char> {
    match g {
        Some(g) => metric_line("tbc_guardrail_stalls"@, l, g.stall_count as nat) + metric_line(
            "tbc_guardrail_overruns"@,
            l,
            g.budget_overruns as nat,
        ) + metric_line("tbc_guardrail_rate_limited"@, l, g.rate_limited as nat) + metric_line(
            "tbc_guardrail_throttled_ticks"@,
            l,
            g.throttled_ticks as nat,
        ) + metric_line("tbc_guardrail_within_budget"@, l, flag(g.within_budget)),
        None => Seq::empty(),
    }
}

fn append_profiler(out: &mut String, p: &Option<IslandProfiler>, l: &str)
    ensures
        final(out)@ == old(out)@ + profiler_metrics(*p, l@),
{
    let ghost start = out@;
    match p {
        Some(p) => {
            append_metric(out, "tbc_island_count", l, p.island_count as u128);
            append_metric(out, "tbc_beam_steps_last_tick", l, p.total_steps_last_tick as u128);
        },
        None => {},
    }
    proof {
        assert(out@ =~= start + profiler_metrics(*p, l@));
    }
}

fn append_guardrails(out: &mut String, g: &Option<GuardrailReport>, l: &str)
    ensures
        final(out)@ == old(out)@ + guardrail_metrics(*g, l@),
{
    let ghost start = out@;
    match g {
        Some(g) => {
            let ghost s0 = out@;
            append_metric(out, "tbc_guardrail_stalls", l, g.stall_count as u128);
            append_metric(out, "tbc_guardrail_overruns", l, g.budget_overruns as u128);
            let ghost s2 = out@;
            append_metric(out, "tbc_guardrail_rate_limited", l, g.rate_limited as u128);
            append_metric(out, "tbc_guardrail_throttled_ticks", l, g.throttled_ticks as u128);
            let ghost s4 = out@;
            let v = flag_value(g.within_budget);
            append_metric(out, "tbc_guardrail_within_budget", l, v);
        },
        None => {},
    }
    proof {
        assert(out@ =~= start + guardrail_metrics(*g, l@));
    }
}

fn append_frame(out: &mut String, f: &FrameOps)
    ensures
        final(out)@ == old(out)@ + frame_metrics(*f),
{
    let ghost start = out@;
    let mut labels = String::from_str("frame=\"");
    let en = escape_label(f.name.as_str());
    labels.append(en.as_str());
    labels.append("\",ruleset=\"");
    let er = escape_label(f.ruleset.as_str());
    labels.append(er.as_str());
    labels.append("\"");
    proof {
        assert(labels@ =~= frame_labels(*f));
    }
    let l = labels.as_str();
    append_metric(out, "tbc_tick", l, f.tick as u128);
    append_metric(out, "tbc_entities", l, f.entities as u128);
    append_metric(out, "tbc_fwau_count", l, f.fwau_count as u128);
    let ghost mid = out@;
    append_profiler(out, &f.island_profiler, l);
    append_guardrails(out, &f.guardrails, l);
    proof {
        let lv = frame_labels(*f);
        assert(frame_metrics(*f) == metric_line("tbc_tick"@, lv, f.tick as nat) + metric_line(
            "tbc_entities"@,
            lv,
            f.entities as nat,
        ) + metric_line("tbc_fwau_count"@, lv, f.fwau_count as nat) + profiler_metrics(
            f.island_profiler,
            lv,
        ) + guardrail_metrics(f.guardrails, lv));
        assert(out@ =~= start + frame_metrics(*f));
    }
}

/// No frame reports a beam budget overrun.
pub open spec fn guardrails_ok(fs: Seq<FrameOps>) -> bool {
    forall|i: int| 0 <= i < fs.len() ==> (#[trigger] fs[i].guardrails matches Some(g) ==> g.within_budget)
}

/// The fabric is healthy: connected when a NATS URL is configured.
pub open spec fn rww_ok(r: RwwStatus) -> bool {
    if r.nats_url is Some { r.connected } else { true }
}

pub open spec fn frames_detail(n: nat) -> Seq<char> {
    decimal(n) + " frame(s)"@
}

pub open spec fn archive_detail(a: Option<ArchiveStats>) -> Seq<char> {
    match a {
        Some(st) => decimal(st.souls as nat) + " souls, "@ + decimal(st.packets as nat) + " packets at "@ + st.path@,
        None => "in-memory souls (no archive path)"@,
    }
}

pub open spec fn rww_detail(r: RwwStatus) -> Seq<char> {
    if r.nats_url is Some {
        "backend="@ + r.backend@ + " connected="@ + bool_text(r.connected)
    } else {
        "backend="@ + r.backend@ + " (dev in-memory)"@
    }
}

pub open spec fn guardrail_detail(ok: bool) -> Seq<char> {
    if ok { "within beam budget"@ } else { "beam budget overrun detected"@ }
}

/// Overall status: `ok` when ready with no overrun, `degraded` when ready with one,
/// `unavailable` otherwise.
pub open spec fn status_text(ready: bool, guardrails_fine: bool) -> Seq<char> {
    if ready && guardrails_fine {
        "ok"@
    } else if ready {
        "degraded"@
    } else {
        "unavailable"@
    }
}

fn all_within_budget(frames: &Vec<FrameOps>) -> (ok: bool)
    ensures
        ok == guardrails_ok(frames@),
{
    let mut i: usize = 0;
    while i < frames.len()
        invariant
            i <= frames@.len(),
            forall|k: int| 0 <= k < i ==> (#[trigger] frames@[k].guardrails matches Some(g) ==> g.within_budget),
        decreases frames@.len() - i,
    {
        match &frames[i].guardrails {
            Some(g) => {
                if !g.within_budget {
                    return false;
                }
            },
            None => {},
        }
        i = i + 1;
    }
    true
}

fn check(name: &str, ok: bool, detail: String) -> (c: HealthCheck)
    ensures
        c.name@ == name@,
        c.ok == ok,
        c.detail == detail,
{
    HealthCheck { name: String::from_str(name), ok, detail }
}

impl OpsSnapshot {
    /// Assembles the snapshot from the node, archive, fabric and per-frame figures:
    /// four checks (frames booted, archive, fabric, guardrails), readiness (frames booted,
    /// fabric healthy, every other check ok) and the overall status.
    pub fn from_parts(
        node: ShardNodeStatus,
        archive: Option<ArchiveStats>,
        rww: RwwStatus,
        active_sessions: usize,
        frames: Vec<FrameOps>,
    ) -> (s: Self)
        ensures
            s.version@ == VERSION@,
            s.node == node,
            s.archive == archive,
            s.rww == rww,
            s.active_sessions == active_sessions,
            s.frames == frames,
            s.checks@.len() == 4,
            s.checks@[0].name@ == "frames_booted"@,
            s.checks@[0].ok == (frames@.len() > 0),
            s.checks@[0].detail@ == frames_detail(frames@.len()),
            s.checks@[1].name@ == "archive"@,
            s.checks@[1].ok,
            s.checks@[1].detail@ == archive_detail(archive),
            s.checks@[2].name@ == "rww"@,
            s.checks@[2].ok == rww_ok(rww),
            s.checks@[2].detail@ == rww_detail(rww),
            s.checks@[3].name@ == "guardrails"@,
            s.checks@[3].ok == guardrails_ok(frames@),
            s.checks@[3].detail@ == guardrail_detail(guardrails_ok(frames@)),
            s.ready == (frames@.len() > 0 && rww_ok(rww) && guardrails_ok(frames@)),
            s.status@ == status_text(s.ready, guardrails_ok(frames@)),
    {
        let mut checks: Vec<HealthCheck> = Vec::new();

        let mut d0 = String::new();
        push_decimal(&mut d0, frames.len() as u128);
        d0.append(" frame(s)");
        checks.push(check("frames_booted", frames.len() > 0, d0));

        let d1 = match &archive {
            Some(st) => {
                let mut d = String::new();
                push_decimal(&mut d, st.souls as u128);
                d.append(" souls, ");
                push_decimal(&mut d, st.packets as u128);
                d.append(" packets at ");
                d.append(st.path.as_str());
                d
            },
            None => String::from_str("in-memory souls (no archive path)"),
        };
        checks.push(check("archive", true, d1));

        let rww_fine = match &rww.nats_url {
            Some(_) => rww.connected,
            None => true,
        };
        let mut d2 = String::from_str("backend=");
        d2.append(rww.backend.as_str());
        match &rww.nats_url {
            Some(_) => {
                d2.append(" connected=");
                d2.append(bool_str(rww.connected));
            },
            None => {
                d2.append(" (dev in-memory)");
            },
        }
        checks.push(check("rww", rww_fine, d2));

        let guard_fine = all_within_budget(&frames);
        let d3 = if guard_fine {
            String::from_str("within beam budget")
        } else {
            String::from_str("beam budget overrun detected")
        };
        checks.push(check("guardrails", guard_fine, d3));

        let ready = frames.len() > 0 && rww_fine && guard_fine;
        let status = if ready && guard_fine {
            String::from_str("ok")
        } else if ready {
            String::from_str("degraded")
        } else {
            String::from_str("unavailable")
        };
        proof {
            reveal_strlit(" frame(s)");
            reveal_strlit(" souls, ");
            reveal_strlit(" packets at ");
            reveal_strlit("backend=");
            reveal_strlit(" connected=");
            reveal_strlit(" (dev in-memory)");
            assert(checks@[0].detail@ =~= frames_detail(frames@.len()));
            assert(checks@[1].detail@ =~= archive_detail(archive));
            assert(checks@[2].detail@ =~= rww_detail(rww));
        }
        OpsSnapshot {
            version: String::from_str(VERSION),
            status,
            ready,
            node,
            archive,
            rww,
            active_sessions,
            frames,
            checks,
        }
    }

    /// Prometheus text exposition of the snapshot: deployment-wide samples, archive
    /// counts when there is an archive, then each frame's samples.
    pub fn prometheus_lines(&self) -> (out: String)
        ensures
            out@ == prometheus_text(*self),
    {
        proof {
            reveal_strlit("");
        }
        let mut out = String::new();
        let mut version_label = String::from_str("version=\"");
        version_label.append(self.version.as_str());
        version_label.append("\"");
        append_metric(&mut out, "tbc_info", version_label.as_str(), 1);
        append_metric(&mut out, "tbc_ready", "", flag_value(self.ready));
        append_metric(&mut out, "tbc_sessions_active", "", self.active_sessions as u128);
        append_metric(&mut out, "tbc_frames", "", self.frames.len() as u128);
        append_metric(&mut out, "tbc_rww_connected", "", flag_value(self.rww.connected));
        match &self.archive {
            Some(stats) => {
                append_metric(&mut out, "tbc_archive_souls", "", stats.souls as u128);
                append_metric(&mut out, "tbc_archive_packets", "", stats.packets as u128);
            },
            None => {},
        }
        let ghost head = out@;
        let mut i: usize = 0;
        while i < self.frames.len()
            invariant
                i <= self.frames@.len(),
                out@ == head + frames_metrics(self.frames@.take(i as int)),
            decreases self.frames@.len() - i,
        {
            proof {
                assert(self.frames@.take(i + 1).drop_last() =~= self.frames@.take(i as int));
            }
            append_frame(&mut out, &self.frames[i]);
            proof {
                assert(out@ =~= head + frames_metrics(self.frames@.take(i + 1)));
            }
            i = i + 1;
        }
        proof {
            assert(self.frames@.take(self.frames@.len() as int) =~= self.frames@);
            assert("version=\""@ + self.version@ + "\""@ == version_label@);
            assert(out@ =~= prometheus_text(*self));
        }
        out
    }
}

} // verus!

verus! {

/// How often `c` occurs in `s`.
pub open spec fn count_char(s: Seq<char>, c: char) -> nat
    decreases s.len(),
{
    if s.len() == 0 {
        0
    } else {
        count_char(s.drop_last(), c) + if s.last() == c { 1nat } else { 0nat }
    }
}

/// Sample lines a frame contributes: three, two more with a profiler, five more with
/// guardrails.
pub open spec fn frame_line_count(f: FrameOps) -> nat {
    3 + (if f.island_profiler is Some { 2nat } else { 0nat }) + (if f.guardrails is Some { 5nat } else { 0nat })
}

pub open spec fn frames_line_count(fs: Seq<FrameOps>) -> nat
    decreases fs.len(),
{
    if fs.len() == 0 {
        0
    } else {
        frames_line_count(fs.drop_last()) + frame_line_count(fs.last())
    }
}

/// Reads a label value back: a backslash takes the next character literally.
pub open spec fn unescaped_label(t: Seq<char>) -> Seq<char>
    decreases t.len(),
{
    if t.len() == 0 {
        Seq::empty()
    } else if t[0] == '\\' && t.len() >= 2 {
        seq![t[1]] + unescaped_label(t.subrange(2, t.len() as int))
    } else {
        seq![t[0]] + unescaped_label(t.subrange(1, t.len() as int))
    }
}

proof fn lemma_count_concat(a: Seq<char>, b: Seq<char>, c: char)
    ensures
        count_char(a + b, c) == count_char(a, c) + count_char(b, c),
    decreases b.len(),
{
    if b.len() > 0 {
        lemma_count_concat(a, b.drop_last(), c);
        assert((a + b).drop_last() =~= a + b.drop_last());
    } else {
        assert(a + b =~= a);
    }
}

proof fn lemma_count_absent(s: Seq<char>, c: char)
    requires
        !s.contains(c),
    ensures
        count_char(s, c) == 0,
    decreases s.len(),
{
    if s.len() > 0 {
        assert(!s.drop_last().contains(c)) by {
            if s.drop_last().contains(c) {
                let i = choose|i: int| 0 <= i < s.drop_last().len() && s.drop_last()[i] == c;
                assert(s[i] == c);
            }
        }
        lemma_count_absent(s.drop_last(), c);
        assert(s[s.len() - 1] != c);
    }
}

proof fn lemma_decimal_no_newline(n: nat)
    ensures
        !decimal(n).contains('\n'),
{
    lemma_decimal_canonical(n);
    if decimal(n).contains('\n') {
        let i = choose|i: int| 0 <= i < decimal(n).len() && decimal(n)[i] == '\n';
        assert(is_digit(decimal(n)[i]));
    }
}

proof fn lemma_no_newline_concat(a: Seq<char>, b: Seq<char>)
    requires
        !a.contains('\n'),
        !b.contains('\n'),
    ensures
        !(a + b).contains('\n'),
{
    if (a + b).contains('\n') {
        let i = choose|i: int| 0 <= i < (a + b).len() && (a + b)[i] == '\n';
        if i < a.len() {
            assert(a[i] == '\n');
        } else {
            assert(b[i - a.len()] == '\n');
        }
    }
}

proof fn lemma_escaped_no_newline(s: Seq<char>)
    requires
        !s.contains('\n'),
    ensures
        !escaped_label(s).contains('\n'),
    decreases s.len(),
{
    if s.len() > 0 {
        assert(!s.drop_last().contains('\n')) by {
            if s.drop_last().contains('\n') {
                let i = choose|i: int| 0 <= i < s.drop_last().len() && s.drop_last()[i] == '\n';
                assert(s[i] == '\n');
            }
        }
        lemma_escaped_no_newline(s.drop_last());
        assert(s[s.len() - 1] != '\n');
        let rest = escaped_label(s.drop_last());
        if s.last() == '\\' {
            lemma_no_newline_concat(rest, seq!['\\', '\\']);
        } else if s.last() == '"' {
            lemma_no_newline_concat(rest, seq!['\\', '"']);
        } else {
            lemma_no_newline_concat(rest, seq![s.last()]);
            assert(rest.push(s.last()) =~= rest + seq![s.last()]);
        }
    }
}

proof fn lemma_metric_line_shape(name: Seq<char>, labels: Seq<char>, value: nat)
    requires
        !name.contains('\n'),
        !labels.contains('\n'),
    ensures
        count_char(metric_line(name, labels, value), '\n') == 1,
        metric_line(name, labels, value).len() > 0,
        metric_line(name, labels, value).last() == '\n',
{
    reveal_strlit(" ");
    reveal_strlit("\n");
    reveal_strlit("{");
    reveal_strlit("} ");
    lemma_decimal_no_newline(value);
    let d = decimal(value);
    let nl = "\n"@;
    assert(count_char(nl, '\n') == 1) by {
        assert(nl.len() == 1 && nl[0] == '\n');
        assert(nl.drop_last() =~= Seq::<char>::empty());
        assert(count_char(Seq::<char>::empty(), '\n') == 0);
    }
    if labels.len() == 0 {
        let head = name + " "@ + d;
        assert(!" "@.contains('\n'));
        lemma_no_newline_concat(name, " "@);
        lemma_no_newline_concat(name + " "@, d);
        lemma_count_absent(head, '\n');
        lemma_count_concat(head, nl, '\n');
    } else {
        let head = name + "{"@ + labels + "} "@ + d;
        assert(!"{"@.contains('\n'));
        assert(!"} "@.contains('\n'));
        lemma_no_newline_concat(name, "{"@);
        lemma_no_newline_concat(name + "{"@, labels);
        lemma_no_newline_concat(name + "{"@ + labels, "} "@);
        lemma_no_newline_concat(name + "{"@ + labels + "} "@, d);
        lemma_count_absent(head, '\n');
        lemma_count_concat(head, nl, '\n');
    }
}

/// A frame's name and ruleset hold no line break.
pub open spec fn frame_names_single_line(f: FrameOps) -> bool {
    !f.name@.contains('\n') && !f.ruleset@.contains('\n')
}

proof fn lemma_frame_labels_single_line(f: FrameOps)
    requires
        frame_names_single_line(f),
    ensures
        !frame_labels(f).contains('\n'),
{
    reveal_strlit("frame=\"");
    reveal_strlit("\",ruleset=\"");
    reveal_strlit("\"");
    lemma_escaped_no_newline(f.name@);
    lemma_escaped_no_newline(f.ruleset@);
    let a = "frame=\""@;
    let b = "\",ruleset=\""@;
    let c = "\""@;
    assert(!a.contains('\n'));
    assert(!b.contains('\n'));
    assert(!c.contains('\n'));
    lemma_no_newline_concat(a, escaped_label(f.name@));
    lemma_no_newline_concat(a + escaped_label(f.name@), b);
    lemma_no_newline_concat(a + escaped_label(f.name@) + b, escaped_label(f.ruleset@));
    lemma_no_newline_concat(a + escaped_label(f.name@) + b + escaped_label(f.ruleset@), c);
}

proof fn lemma_line_pair(a: Seq<char>, b: Seq<char>)
    requires
        a.len() > 0 || b.len() > 0,
        b.len() > 0 ==> b.last() == '\n',
        b.len() == 0 ==> a.last() == '\n',
    ensures
        (a + b).len() > 0,
        (a + b).last() == '\n',
        count_char(a + b, '\n') == count_char(a, '\n') + count_char(b, '\n'),
{
    lemma_count_concat(a, b, '\n');
    if b.len() == 0 {
        assert(a + b =~= a);
    }
}

proof fn lemma_profiler_shape(p: Option<IslandProfiler>, l: Seq<char>)
    requires
        !l.contains('\n'),
    ensures
        count_char(profiler_metrics(p, l), '\n') == (if p is Some { 2nat } else { 0nat }),
        profiler_metrics(p, l).len() > 0 ==> profiler_metrics(p, l).last() == '\n',
{
    reveal_strlit("tbc_island_count");
    reveal_strlit("tbc_beam_steps_last_tick");
    match p {
        Some(q) => {
            assert(!"tbc_island_count"@.contains('\n'));
            assert(!"tbc_beam_steps_last_tick"@.contains('\n'));
            let a = metric_line("tbc_island_count"@, l, q.island_count as nat);
            let b = metric_line("tbc_beam_steps_last_tick"@, l, q.total_steps_last_tick as nat);
            lemma_metric_line_shape("tbc_island_count"@, l, q.island_count as nat);
            lemma_metric_line_shape("tbc_beam_steps_last_tick"@, l, q.total_steps_last_tick as nat);
            lemma_line_pair(a, b);
        },
        None => {},
    }
}

proof fn lemma_guardrail_shape(g: Option<GuardrailReport>, l: Seq<char>)
    requires
        !l.contains('\n'),
    ensures
        count_char(guardrail_metrics(g, l), '\n') == (if g is Some { 5nat } else { 0nat }),
        guardrail_metrics(g, l).len() > 0 ==> guardrail_metrics(g, l).last() == '\n',
{
    reveal_strlit("tbc_guardrail_stalls");
    reveal_strlit("tbc_guardrail_overruns");
    reveal_strlit("tbc_guardrail_rate_limited");
    reveal_strlit("tbc_guardrail_throttled_ticks");
    reveal_strlit("tbc_guardrail_within_budget");
    match g {
        Some(q) => {
            assert(!"tbc_guardrail_stalls"@.contains('\n'));
            assert(!"tbc_guardrail_overruns"@.contains('\n'));
            assert(!"tbc_guardrail_rate_limited"@.contains('\n'));
            assert(!"tbc_guardrail_throttled_ticks"@.contains('\n'));
            assert(!"tbc_guardrail_within_budget"@.contains('\n'));
            let a = metric_line("tbc_guardrail_stalls"@, l, q.stall_count as nat);
            let b = metric_line("tbc_guardrail_overruns"@, l, q.budget_overruns as nat);
            let c = metric_line("tbc_guardrail_rate_limited"@, l, q.rate_limited as nat);
            let d = metric_line("tbc_guardrail_throttled_ticks"@, l, q.throttled_ticks as nat);
            let e = metric_line("tbc_guardrail_within_budget"@, l, flag(q.within_budget));
            lemma_metric_line_shape("tbc_guardrail_stalls"@, l, q.stall_count as nat);
            lemma_metric_line_shape("tbc_guardrail_overruns"@, l, q.budget_overruns as nat);
            lemma_metric_line_shape("tbc_guardrail_rate_limited"@, l, q.rate_limited as nat);
            lemma_metric_line_shape("tbc_guardrail_throttled_ticks"@, l, q.throttled_ticks as nat);
            lemma_metric_line_shape("tbc_guardrail_within_budget"@, l, flag(q.within_budget));
            lemma_line_pair(a, b);
            lemma_line_pair(a + b, c);
            lemma_line_pair(a + b + c, d);
            lemma_line_pair(a + b + c + d, e);
        },
        None => {},
    }
}

proof fn lemma_frame_shape(f: FrameOps)
    requires
        frame_names_single_line(f),
    ensures
        count_char(frame_metrics(f), '\n') == frame_line_count(f),
        frame_metrics(f).len() > 0,
        frame_metrics(f).last() == '\n',
{
    reveal_strlit("tbc_tick");
    reveal_strlit("tbc_entities");
    reveal_strlit("tbc_fwau_count");
    lemma_frame_labels_single_line(f);
    let l = frame_labels(f);
    let l1 = metric_line("tbc_tick"@, l, f.tick as nat);
    let l2 = metric_line("tbc_entities"@, l, f.entities as nat);
    let l3 = metric_line("tbc_fwau_count"@, l, f.fwau_count as nat);
    assert(!"tbc_tick"@.contains('\n'));
    assert(!"tbc_entities"@.contains('\n'));
    assert(!"tbc_fwau_count"@.contains('\n'));
    lemma_metric_line_shape("tbc_tick"@, l, f.tick as nat);
    lemma_metric_line_shape("tbc_entities"@, l, f.entities as nat);
    lemma_metric_line_shape("tbc_fwau_count"@, l, f.fwau_count as nat);
    lemma_line_pair(l1, l2);
    lemma_line_pair(l1 + l2, l3);
    let p = profiler_metrics(f.island_profiler, l);
    let g = guardrail_metrics(f.guardrails, l);
    lemma_profiler_shape(f.island_profiler, l);
    lemma_guardrail_shape(f.guardrails, l);
    lemma_line_pair(l1 + l2 + l3, p);
    lemma_line_pair(l1 + l2 + l3 + p, g);
    assert(frame_metrics(f) =~= l1 + l2 + l3 + p + g);
}

proof fn lemma_frames_shape(fs: Seq<FrameOps>)
    requires
        forall|i: int| 0 <= i < fs.len() ==> frame_names_single_line(#[trigger] fs[i]),
    ensures
        count_char(frames_metrics(fs), '\n') == frames_line_count(fs),
        fs.len() > 0 ==> frames_metrics(fs).len() > 0 && frames_metrics(fs).last() == '\n',
        fs.len() == 0 ==> frames_metrics(fs) == Seq::<char>::empty(),
    decreases fs.len(),
{
    if fs.len() > 0 {
        let init = fs.drop_last();
        assert forall|i: int| 0 <= i < init.len() implies frame_names_single_line(#[trigger] init[i]) by {
            assert(init[i] == fs[i]);
        }
        lemma_frames_shape(init);
        assert(frame_names_single_line(fs[fs.len() - 1]));
        lemma_frame_shape(fs.last());
        lemma_count_concat(frames_metrics(init), frame_metrics(fs.last()), '\n');
    }
}

spec fn header_text(s: OpsSnapshot) -> Seq<char> {
    metric_line("tbc_info"@, "version=\""@ + s.version@ + "\""@, 1) + metric_line(
        "tbc_ready"@,
        Seq::empty(),
        flag(s.ready),
    ) + metric_line("tbc_sessions_active"@, Seq::empty(), s.active_sessions as nat) + metric_line(
        "tbc_frames"@,
        Seq::empty(),
        s.frames@.len(),
    ) + metric_line("tbc_rww_connected"@, Seq::empty(), flag(s.rww.connected))
}

spec fn archive_text(a: Option<ArchiveStats>) -> Seq<char> {
    match a {
        Some(a) => metric_line("tbc_archive_souls"@, Seq::empty(), a.souls as nat) + metric_line(
            "tbc_archive_packets"@,
            Seq::empty(),
            a.packets as nat,
        ),
        None => Seq::empty(),
    }
}

proof fn lemma_header_shape(s: OpsSnapshot)
    requires
        !s.version@.contains('\n'),
    ensures
        count_char(header_text(s), '\n') == 5,
        header_text(s).len() > 0,
        header_text(s).last() == '\n',
{
    reveal_strlit("tbc_info");
    reveal_strlit("version=\"");
    reveal_strlit("\"");
    reveal_strlit("tbc_ready");
    reveal_strlit("tbc_sessions_active");
    reveal_strlit("tbc_frames");
    reveal_strlit("tbc_rww_connected");
    let vl = "version=\""@ + s.version@ + "\""@;
    assert(!"version=\""@.contains('\n'));
    assert(!"\""@.contains('\n'));
    lemma_no_newline_concat("version=\""@, s.version@);
    lemma_no_newline_concat("version=\""@ + s.version@, "\""@);
    assert(!"tbc_info"@.contains('\n'));
    assert(!"tbc_ready"@.contains('\n'));
    assert(!"tbc_sessions_active"@.contains('\n'));
    assert(!"tbc_frames"@.contains('\n'));
    assert(!"tbc_rww_connected"@.contains('\n'));
    let e = Seq::<char>::empty();
    assert(!e.contains('\n'));
    let h1 = metric_line("tbc_info"@, vl, 1);
    let h2 = metric_line("tbc_ready"@, e, flag(s.ready));
    let h3 = metric_line("tbc_sessions_active"@, e, s.active_sessions as nat);
    let h4 = metric_line("tbc_frames"@, e, s.frames@.len());
    let h5 = metric_line("tbc_rww_connected"@, e, flag(s.rww.connected));
    lemma_metric_line_shape("tbc_info"@, vl, 1);
    lemma_metric_line_shape("tbc_ready"@, e, flag(s.ready));
    lemma_metric_line_shape("tbc_sessions_active"@, e, s.active_sessions as nat);
    lemma_metric_line_shape("tbc_frames"@, e, s.frames@.len());
    lemma_metric_line_shape("tbc_rww_connected"@, e, flag(s.rww.connected));
    lemma_line_pair(h1, h2);
    lemma_line_pair(h1 + h2, h3);
    lemma_line_pair(h1 + h2 + h3, h4);
    lemma_line_pair(h1 + h2 + h3 + h4, h5);
}

proof fn lemma_archive_shape(a: Option<ArchiveStats>)
    ensures
        count_char(archive_text(a), '\n') == (if a is Some { 2nat } else { 0nat }),
        archive_text(a).len() > 0 ==> archive_text(a).last() == '\n',
{
    reveal_strlit("tbc_archive_souls");
    reveal_strlit("tbc_archive_packets");
    let e = Seq::<char>::empty();
    assert(!e.contains('\n'));
    match a {
        Some(a) => {
            assert(!"tbc_archive_souls"@.contains('\n'));
            assert(!"tbc_archive_packets"@.contains('\n'));
            lemma_metric_line_shape("tbc_archive_souls"@, e, a.souls as nat);
            lemma_metric_line_shape("tbc_archive_packets"@, e, a.packets as nat);
            lemma_line_pair(
                metric_line("tbc_archive_souls"@, e, a.souls as nat),
                metric_line("tbc_archive_packets"@, e, a.packets as nat),
            );
        },
        None => {},
    }
}

proof fn lemma_ready_line(s: OpsSnapshot)
    ensures
        prometheus_text(s).subrange(
            metric_line("tbc_info"@, "version=\""@ + s.version@ + "\""@, 1).len() as int,
            (metric_line("tbc_info"@, "version=\""@ + s.version@ + "\""@, 1).len() + "tbc_ready "@.len() + 2) as int,
        ) == "tbc_ready "@ + decimal(flag(s.ready)) + "\n"@,
{
    reveal_strlit("tbc_ready");
    reveal_strlit("tbc_ready ");
    reveal_strlit(" ");
    reveal_strlit("\n");
    let h1 = metric_line("tbc_info"@, "version=\""@ + s.version@ + "\""@, 1);
    let h2 = metric_line("tbc_ready"@, Seq::empty(), flag(s.ready));
    let rest = metric_line("tbc_sessions_active"@, Seq::empty(), s.active_sessions as nat) + metric_line(
        "tbc_frames"@,
        Seq::empty(),
        s.frames@.len(),
    ) + metric_line("tbc_rww_connected"@, Seq::empty(), flag(s.rww.connected)) + archive_text(s.archive)
        + frames_metrics(s.frames@);
    assert(prometheus_text(s) =~= h1 + h2 + rest);
    assert(decimal(flag(s.ready)) =~= seq![digit_char(flag(s.ready))]);
    assert(h2 =~= "tbc_ready "@ + decimal(flag(s.ready)) + "\n"@);
    assert((h1 + h2 + rest).subrange(h1.len() as int, (h1.len() + h2.len()) as int) =~= h2);
}

/// The Prometheus text is a run of whole sample lines, each a `metric_line` (`name
/// value` or `name{labels} value`) ending in a line break: five header lines, two for
/// the archive when there is one, and per frame three, two more with a profiler and
/// five more with guardrails. The second line is `tbc_ready 1` or `tbc_ready 0`, and
/// the frame lines, opened by `tbc_tick`, appear exactly when there are frames. Names
/// holding a line break themselves are left out, since they would split a line.
pub proof fn lemma_prometheus_shape(s: OpsSnapshot)
    requires
        !s.version@.contains('\n'),
        forall|i: int| 0 <= i < s.frames@.len() ==> frame_names_single_line(#[trigger] s.frames@[i]),
    ensures
        count_char(prometheus_text(s), '\n') == 5 + (if s.archive is Some { 2nat } else { 0nat })
            + frames_line_count(s.frames@),
        prometheus_text(s).len() > 0,
        prometheus_text(s).last() == '\n',
        prometheus_text(s).subrange(
            metric_line("tbc_info"@, "version=\""@ + s.version@ + "\""@, 1).len() as int,
            (metric_line("tbc_info"@, "version=\""@ + s.version@ + "\""@, 1).len() + "tbc_ready "@.len() + 2) as int,
        ) == "tbc_ready "@ + decimal(flag(s.ready)) + "\n"@,
        s.frames@.len() == 0 ==> frames_metrics(s.frames@) == Seq::<char>::empty(),
        s.frames@.len() > 0 ==> frames_metrics(s.frames@).subrange(
            0,
            metric_line("tbc_tick"@, frame_labels(s.frames@[0]), s.frames@[0].tick as nat).len() as int,
        ) == metric_line("tbc_tick"@, frame_labels(s.frames@[0]), s.frames@[0].tick as nat),
{
    let h = header_text(s);
    let ar = archive_text(s.archive);
    let fm = frames_metrics(s.frames@);
    lemma_header_shape(s);
    lemma_archive_shape(s.archive);
    lemma_frames_shape(s.frames@);
    lemma_line_pair(h, ar);
    lemma_line_pair(h + ar, fm);
    assert(prometheus_text(s) =~= h + ar + fm);
    lemma_ready_line(s);
    if s.frames@.len() > 0 {
        lemma_first_frame_first(s.frames@);
    }
}

proof fn lemma_frame_starts_with_tick(f: FrameOps)
    ensures
        metric_line("tbc_tick"@, frame_labels(f), f.tick as nat).len() <= frame_metrics(f).len(),
        frame_metrics(f).subrange(
            0,
            metric_line("tbc_tick"@, frame_labels(f), f.tick as nat).len() as int,
        ) == metric_line("tbc_tick"@, frame_labels(f), f.tick as nat),
{
    let l = frame_labels(f);
    let t = metric_line("tbc_tick"@, l, f.tick as nat);
    let rest = metric_line("tbc_entities"@, l, f.entities as nat) + metric_line(
        "tbc_fwau_count"@,
        l,
        f.fwau_count as nat,
    ) + profiler_metrics(f.island_profiler, l) + guardrail_metrics(f.guardrails, l);
    assert(frame_metrics(f) =~= t + rest);
    assert((t + rest).subrange(0, t.len() as int) =~= t);
}

proof fn lemma_first_frame_first(fs: Seq<FrameOps>)
    requires
        fs.len() > 0,
    ensures
        metric_line("tbc_tick"@, frame_labels(fs[0]), fs[0].tick as nat).len() <= frames_metrics(fs).len(),
        frames_metrics(fs).subrange(
            0,
            metric_line("tbc_tick"@, frame_labels(fs[0]), fs[0].tick as nat).len() as int,
        ) == metric_line("tbc_tick"@, frame_labels(fs[0]), fs[0].tick as nat),
    decreases fs.len(),
{
    let t = metric_line("tbc_tick"@, frame_labels(fs[0]), fs[0].tick as nat);
    let init = fs.drop_last();
    let a = frames_metrics(init);
    let b = frame_metrics(fs.last());
    assert(frames_metrics(fs) == a + b);
    if fs.len() == 1 {
        assert(a == Seq::<char>::empty());
        assert(fs.last() == fs[0]);
        lemma_frame_starts_with_tick(fs[0]);
        assert(a + b =~= b);
    } else {
        lemma_first_frame_first(init);
        assert(init[0] == fs[0]);
        assert((a + b).subrange(0, t.len() as int) =~= a.subrange(0, t.len() as int));
    }
}

proof fn lemma_escaped_concat(a: Seq<char>, b: Seq<char>)
    ensures
        escaped_label(a + b) == escaped_label(a) + escaped_label(b),
    decreases b.len(),
{
    if b.len() == 0 {
        assert(a + b =~= a);
        assert(escaped_label(a) + escaped_label(b) =~= escaped_label(a));
    } else {
        lemma_escaped_concat(a, b.drop_last());
        assert((a + b).drop_last() =~= a + b.drop_last());
        assert((a + b).last() == b.last());
        let ea = escaped_label(a);
        let eb = escaped_label(b.drop_last());
        if b.last() == '\\' {
            assert(ea + eb + seq!['\\', '\\'] =~= ea + (eb + seq!['\\', '\\']));
        } else if b.last() == '"' {
            assert(ea + eb + seq!['\\', '"'] =~= ea + (eb + seq!['\\', '"']));
        } else {
            assert((ea + eb).push(b.last()) =~= ea + eb.push(b.last()));
        }
    }
}

/// Escaping a label value loses nothing: reading it back, a backslash taking the next
/// character literally, gives the value. So every backslash and double quote in a
/// frame or ruleset name is escaped by a backslash, and nothing else is changed.
pub proof fn lemma_label_roundtrip(s: Seq<char>)
    ensures
        unescaped_label(escaped_label(s)) == s,
    decreases s.len(),
{
    if s.len() > 0 {
        let c = s[0];
        let rest = s.subrange(1, s.len() as int);
        assert(s =~= seq![c] + rest);
        lemma_escaped_concat(seq![c], rest);
        lemma_label_roundtrip(rest);
        let e1 = escaped_label(seq![c]);
        let e2 = escaped_label(rest);
        assert(seq![c].drop_last() =~= Seq::<char>::empty());
        assert(seq![c].last() == c);
        assert(escaped_label(Seq::<char>::empty()) == Seq::<char>::empty());
        assert(seq![c].len() == 1);
        let t = e1 + e2;
        if c == '\\' || c == '"' {
            if c == '\\' {
                assert(e1 == Seq::<char>::empty() + seq!['\\', '\\']);
            } else {
                assert(e1 == Seq::<char>::empty() + seq!['\\', '"']);
            }
            assert(e1 =~= seq!['\\', c]);
            assert(t[0] == '\\' && t.len() >= 2 && t[1] == c);
            assert(t.subrange(2, t.len() as int) =~= e2);
        } else {
            assert(e1 == Seq::<char>::empty().push(c));
            assert(e1 =~= seq![c]);
            assert(t[0] == c);
            assert(t.subrange(1, t.len() as int) =~= e2);
        }
        assert(seq![c] + rest =~= s);
    }
}

/// The fabric check passes exactly when no NATS bridge is configured or the bridge is
/// connected; a configured bridge that is down makes the deployment not ready, with
/// status `unavailable`. The check, readiness and status are related to the parts as
/// `from_parts` relates them.
pub proof fn lemma_fabric_down_not_ready(
    rww: RwwStatus,
    frames: Seq<FrameOps>,
    rww_check: bool,
    ready: bool,
    status: Seq<char>,
)
    requires
        rww_check == rww_ok(rww),
        ready == (frames.len() > 0 && rww_ok(rww) && guardrails_ok(frames)),
        status == status_text(ready, guardrails_ok(frames)),
    ensures
        rww_check == (rww.nats_url is None || rww.connected),
        ready ==> (rww.nats_url is None || rww.connected),
        rww.nats_url is Some && !rww.connected ==> !ready && status == "unavailable"@,
{
}

} // verus!
