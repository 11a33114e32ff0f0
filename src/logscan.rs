//! Reading server log lines: timestamps in two forms, and model-load markers
//! whose digest is resolved against the digest index.
use crate::manifest::{str_views, DigestIndex};
use crate::text::{all_hex, chars_of, find, first_occurrence, has_prefix, hex_run, starts_with};
use crate::timestamp::{
    local_instant, naive_datetime_of, pair_to_timestamp, parse_naive, parse_rfc3339,
    rfc3339_instant, Timestamp,
};
use crate::usage::{upsert, UsageStat, UsageTable};
use vstd::prelude::*;

verus! {

/// What one log line means, as a value of the specification.
pub enum LineKind {
    /// A `time=` line with a readable RFC 3339 instant.
    Instant(Timestamp),
    /// A `YYYY/MM/DD HH:MM:SS` line, read as wall-clock seconds and nanoseconds.
    WallClock((i64, u32)),
    /// A model-load marker with the digest it names.
    Load(Seq<char>),
    /// Anything else, including timestamp lines that do not parse.
    Other,
}

/// What one log line means, as returned by `classify_line`.
pub enum LineClass {
    Instant(Timestamp),
    WallClock(i64, u32),
    Load(String),
    Other,
}

impl LineClass {
    pub open spec fn kind(self) -> LineKind {
        match self {
            LineClass::Instant(t) => LineKind::Instant(t),
            LineClass::WallClock(s, n) => LineKind::WallClock((s, n)),
            LineClass::Load(d) => LineKind::Load(d@),
            LineClass::Other => LineKind::Other,
        }
    }
}

pub open spec fn time_marker() -> Seq<char> {
    "time="@
}

pub open spec fn wall_clock_format() -> Seq<char> {
    "%Y/%m/%d %H:%M:%S"@
}

pub open spec fn load_marker() -> Seq<char> {
    "llama_model_loader: loaded meta data"@
}

pub open spec fn digest_marker() -> Seq<char> {
    "sha256-"@
}

/// The shape of a wall-clock timestamp line: at least 20 characters, with
/// slashes after the year and after the month.
pub open spec fn is_wall_clock_shaped(l: Seq<char>) -> bool {
    l.len() >= 20 && l[4] == '/' && l[7] == '/'
}

/// The 64-digit digest of a model-load marker line: it follows the first
/// `sha256-` of a line that holds the load marker.
pub open spec fn load_digest(l: Seq<char>) -> Option<Seq<char>> {
    if first_occurrence(l, load_marker()) is Some {
        match first_occurrence(l, digest_marker()) {
            Some(p) => {
                let start = p + 7;
                if start + 64 <= l.len() && all_hex(l.subrange(start, start + 64)) {
                    Some(l.subrange(start, start + 64))
                } else {
                    None
                }
            },
            None => None,
        }
    } else {
        None
    }
}

/// The meaning of a log line; the forms are tried in this order.
pub open spec fn line_kind(l: Seq<char>) -> LineKind {
    if has_prefix(l, time_marker()) {
        match rfc3339_instant(l.subrange(5, l.len() as int)) {
            Some(p) => LineKind::Instant(pair_to_timestamp(p)),
            None => LineKind::Other,
        }
    } else if is_wall_clock_shaped(l) {
        match naive_datetime_of(l.subrange(0, 19), wall_clock_format()) {
            Some(p) => LineKind::WallClock(p),
            None => LineKind::Other,
        }
    } else {
        match load_digest(l) {
            Some(d) => LineKind::Load(d),
            None => LineKind::Other,
        }
    }
}

/// The name a load is counted under, with the size to record: the index's
/// entry, or a placeholder for an artifact that is gone.
pub open spec fn resolve(index: Map<Seq<char>, (Seq<char>, u64)>, digest: Seq<char>) -> (Seq<char>, u64) {
    if index.contains_key(digest) {
        index[digest]
    } else {
        (deleted_name(digest), 0)
    }
}

pub open spec fn deleted_name(digest: Seq<char>) -> Seq<char> {
    digest.subrange(0, 8) + "...-deleted"@
}

/// The state of a scan: the usage map, and the latest timestamp read in the
/// current file.
pub type ScanState = (Map<Seq<char>, UsageStat>, Option<Timestamp>);

/// One line's effect. `local` is the instant that the machine's clock gives
/// for a wall-clock line, if it gives exactly one.
pub open spec fn step(
    st: ScanState,
    index: Map<Seq<char>, (Seq<char>, u64)>,
    kind: LineKind,
    local: Option<(i64, u32)>,
    file_time: Timestamp,
) -> ScanState {
    match kind {
        LineKind::Instant(t) => (st.0, Some(t)),
        LineKind::WallClock(_) => match local {
            Some(p) => (st.0, Some(pair_to_timestamp(p))),
            None => st,
        },
        LineKind::Load(d) => {
            let (name, size) = resolve(index, d);
            (upsert(st.0, name, size, st.1, file_time), st.1)
        },
        LineKind::Other => st,
    }
}

/// The state after the lines, in order; `locals[i]` is the local instant of
/// line `i` where that is a wall-clock line.
pub open spec fn run(
    st: ScanState,
    index: Map<Seq<char>, (Seq<char>, u64)>,
    lines: Seq<Seq<char>>,
    locals: Seq<Option<(i64, u32)>>,
    file_time: Timestamp,
) -> ScanState
    decreases lines.len(),
{
    if lines.len() == 0 {
        st
    } else {
        step(
            run(st, index, lines.drop_last(), locals, file_time),
            index,
            line_kind(lines.last()),
            locals[lines.len() - 1],
            file_time,
        )
    }
}

/// What a log line means.
pub fn classify_line(line: &str) -> (r: LineClass)
    ensures
        r.kind() == line_kind(line@),
{
    let cs = chars_of(line);
    proof {
        reveal_strlit("time=");
        reveal_strlit("sha256-");
    }
    if starts_with(&cs, &chars_of("time=")) {
        let rest = line.substring_char(5, cs.len());
        match parse_rfc3339(rest) {
            Some((s, n)) => LineClass::Instant(Timestamp { secs: s, nanos: n }),
            None => LineClass::Other,
        }
    } else if cs.len() >= 20 && cs[4] == '/' && cs[7] == '/' {
        let head = line.substring_char(0, 19);
        match parse_naive(head, "%Y/%m/%d %H:%M:%S") {
            Some((s, n)) => LineClass::WallClock(s, n),
            None => LineClass::Other,
        }
    } else {
        if find(&cs, &chars_of("llama_model_loader: loaded meta data")).is_none() {
            return LineClass::Other;
        }
        match find(&cs, &chars_of("sha256-")) {
            Some(p) => {
                if p <= cs.len() && cs.len() - p >= 71 && hex_run(&cs, p + 7, p + 71) {
                    LineClass::Load(String::from_str(line.substring_char(p + 7, p + 71)))
                } else {
                    LineClass::Other
                }
            },
            None => LineClass::Other,
        }
    }
}

/// The name and size a load of `digest` is counted under.
pub fn resolve_digest(index: &DigestIndex, digest: &String) -> (r: (String, u64))
    requires
        index.wf(),
        digest@.len() >= 8,
    ensures
        (r.0@, r.1) == resolve(index@, digest@),
{
    match index.lookup(digest) {
        Some(e) => e,
        None => {
            let mut name = String::from_str(digest.as_str().substring_char(0, 8));
            name.append("...-deleted");
            (name, 0)
        },
    }
}

/// A log file's content and its last modification time.
pub struct LogFile {
    pub modified: Timestamp,
    pub lines: Vec<String>,
}

/// Scans one line. A wall-clock line asks the machine's clock for its
/// instant: whatever it answers, the usage map stays as it was and the cursor
/// either stays or takes some value. Every other line has exactly the effect
/// that `step` gives.
pub fn scan_line(
    table: &mut UsageTable,
    cursor: &mut Option<Timestamp>,
    line: &str,
    index: &DigestIndex,
    file_time: Timestamp,
) -> (local: Option<(i64, u32)>)
    requires
        old(table).wf(),
        index.wf(),
    ensures
        final(table).wf(),
        (final(table)@, *final(cursor)) == step(
            (old(table)@, *old(cursor)),
            index@,
            line_kind(line@),
            local,
            file_time,
        ),
        !(line_kind(line@) is WallClock) ==> local is None,
{
    let class = classify_line(line);
    match class {
        LineClass::Instant(t) => {
            *cursor = Some(t);
            None
        },
        LineClass::WallClock(s, n) => {
            let local = local_instant(s, n);
            match local {
                Some((ls, ln)) => {
                    *cursor = Some(Timestamp { secs: ls, nanos: ln });
                },
                None => {},
            }
            local
        },
        LineClass::Load(d) => {
            proof {
                let l = line@;
                if has_prefix(l, time_marker()) {
                } else if is_wall_clock_shaped(l) {
                } else {
                    crate::text::lemma_find_from_bounds(l, digest_marker(), 0);
                    assert(load_digest(l) == Some(d@));
                }
            }
            let (name, size) = resolve_digest(index, &d);
            table.record_load(name, size, *cursor, file_time);
            None
        },
        LineClass::Other => None,
    }
}

/// Scans one log file from the top, with a cursor that starts unset. The
/// result is what `run` gives for some answers of the machine's clock on the
/// wall-clock lines.
pub fn scan_log(table: &mut UsageTable, log: &LogFile, index: &DigestIndex)
    requires
        old(table).wf(),
        index.wf(),
    ensures
        final(table).wf(),
        exists|locals: Seq<Option<(i64, u32)>>|
            locals.len() == log.lines.len() && #[trigger] run(
                (old(table)@, None),
                index@,
                str_views(log.lines@),
                locals,
                log.modified,
            ).0 == final(table)@,
{
    let mut cursor: Option<Timestamp> = None;
    let ghost mut locals: Seq<Option<(i64, u32)>> = Seq::empty();
    let ghost start = table@;
    let ghost lines = str_views(log.lines@);
    let mut i: usize = 0;
    while i < log.lines.len()
        invariant
            i <= log.lines.len(),
            table.wf(),
            index.wf(),
            start == old(table)@,
            lines == str_views(log.lines@),
            locals.len() == i,
            run((start, None), index@, lines.subrange(0, i as int), locals, log.modified) == (
                table@,
                cursor,
            ),
        decreases log.lines.len() - i,
    {
        let ghost before = locals;
        let local = scan_line(table, &mut cursor, log.lines[i].as_str(), index, log.modified);
        proof {
            locals = locals.push(local);
            let pre = lines.subrange(0, i as int);
            let cur = lines.subrange(0, i + 1);
            assert(cur.drop_last() =~= pre);
            assert(cur.last() == log.lines@[i as int]@);
            lemma_run_ignores_later_locals(
                (start, None),
                index@,
                pre,
                before,
                locals,
                log.modified,
            );
        }
        i = i + 1;
    }
    assert(lines.subrange(0, log.lines.len() as int) =~= lines);
    assert(run((start, None), index@, lines, locals, log.modified).0 == table@);
}

/// `run` reads only the answers for the lines it is given.
proof fn lemma_run_ignores_later_locals(
    st: ScanState,
    index: Map<Seq<char>, (Seq<char>, u64)>,
    lines: Seq<Seq<char>>,
    a: Seq<Option<(i64, u32)>>,
    b: Seq<Option<(i64, u32)>>,
    file_time: Timestamp,
)
    requires
        lines.len() <= a.len(),
        lines.len() <= b.len(),
        forall|k: int| 0 <= k < lines.len() ==> a[k] == b[k],
    ensures
        run(st, index, lines, a, file_time) == run(st, index, lines, b, file_time),
    decreases lines.len(),
{
    if lines.len() > 0 {
        lemma_run_ignores_later_locals(st, index, lines.drop_last(), a, b, file_time);
    }
}

/// The usage map after the log files, scanned in order, each with a cursor
/// that starts unset; `locals[k]` answers for the wall-clock lines of file `k`.
pub open spec fn run_logs(
    m: Map<Seq<char>, UsageStat>,
    index: Map<Seq<char>, (Seq<char>, u64)>,
    logs: Seq<LogFile>,
    locals: Seq<Seq<Option<(i64, u32)>>>,
) -> Map<Seq<char>, UsageStat>
    decreases logs.len(),
{
    if logs.len() == 0 {
        m
    } else {
        let last = logs.last();
        run(
            (run_logs(m, index, logs.drop_last(), locals), None),
            index,
            str_views(last.lines@),
            locals[logs.len() - 1],
            last.modified,
        ).0
    }
}

/// `run_logs` reads only the answers for the files it is given.
proof fn lemma_run_logs_ignores_later_locals(
    m: Map<Seq<char>, UsageStat>,
    index: Map<Seq<char>, (Seq<char>, u64)>,
    logs: Seq<LogFile>,
    a: Seq<Seq<Option<(i64, u32)>>>,
    b: Seq<Seq<Option<(i64, u32)>>>,
)
    requires
        logs.len() <= a.len(),
        logs.len() <= b.len(),
        forall|k: int| 0 <= k < logs.len() ==> a[k] == b[k],
    ensures
        run_logs(m, index, logs, a) == run_logs(m, index, logs, b),
    decreases logs.len(),
{
    if logs.len() > 0 {
        lemma_run_logs_ignores_later_locals(m, index, logs.drop_last(), a, b);
    }
}

/// Scans the log files in the given order into one usage table. The result is
/// what `run_logs` gives for some answers of the machine's clock on the
/// wall-clock lines.
pub fn parse_logs(index: &DigestIndex, logs: &Vec<LogFile>) -> (r: UsageTable)
    requires
        index.wf(),
    ensures
        r.wf(),
        exists|locals: Seq<Seq<Option<(i64, u32)>>>|
            locals.len() == logs.len() && (forall|k: int|
                0 <= k < logs.len() ==> (#[trigger] locals[k]).len() == logs@[k].lines.len())
                && #[trigger] run_logs(Map::empty(), index@, logs@, locals) == r@,
{
    let mut table = UsageTable::new();
    let ghost mut locals: Seq<Seq<Option<(i64, u32)>>> = Seq::empty();
    let mut i: usize = 0;
    while i < logs.len()
        invariant
            i <= logs.len(),
            table.wf(),
            index.wf(),
            locals.len() == i,
            forall|k: int| 0 <= k < i ==> (#[trigger] locals[k]).len() == logs@[k].lines.len(),
            run_logs(Map::empty(), index@, logs@.subrange(0, i as int), locals) == table@,
        decreases logs.len() - i,
    {
        let ghost before_map = table@;
        let ghost before = locals;
        scan_log(&mut table, &logs[i], index);
        proof {
            let log = logs@[i as int];
            let w = choose|w: Seq<Option<(i64, u32)>>|
                w.len() == log.lines.len() && #[trigger] run(
                    (before_map, None),
                    index@,
                    str_views(log.lines@),
                    w,
                    log.modified,
                ).0 == table@;
            locals = locals.push(w);
            let pre = logs@.subrange(0, i as int);
            let cur = logs@.subrange(0, i + 1);
            assert(cur.drop_last() =~= pre);
            lemma_run_logs_ignores_later_locals(Map::empty(), index@, pre, before, locals);
        }
        i = i + 1;
    }
    assert(logs@.subrange(0, logs.len() as int) =~= logs@);
    assert(run_logs(Map::empty(), index@, logs@, locals) == table@);
    table
}

/// A line that is neither a readable timestamp of either form nor a model-load
/// marker with a well-formed digest changes neither the cursor nor the usage
/// map.
pub proof fn lemma_unrecognised_line_changes_nothing(
    st: ScanState,
    index: Map<Seq<char>, (Seq<char>, u64)>,
    line: Seq<char>,
    local: Option<(i64, u32)>,
    file_time: Timestamp,
)
    requires
        has_prefix(line, time_marker()) ==> rfc3339_instant(line.subrange(5, line.len() as int)) is None,
        is_wall_clock_shaped(line) ==> naive_datetime_of(line.subrange(0, 19), wall_clock_format()) is None,
        load_digest(line) is None,
    ensures
        line_kind(line) is Other,
        step(st, index, line_kind(line), local, file_time) == st,
{
}

/// Once a name has a record, a line never lowers its count or moves its last
/// use back.
pub proof fn lemma_step_never_lowers(
    st: ScanState,
    index: Map<Seq<char>, (Seq<char>, u64)>,
    kind: LineKind,
    local: Option<(i64, u32)>,
    file_time: Timestamp,
    name: Seq<char>,
)
    requires
        st.0.contains_key(name),
    ensures
        ({
            let next = step(st, index, kind, local, file_time).0;
            &&& next.contains_key(name)
            &&& next[name].usage_count >= st.0[name].usage_count
            &&& !next[name].last_used.before(st.0[name].last_used)
        }),
{
}

/// Two usage maps with the same names, counts and sizes.
pub open spec fn same_counts(a: Map<Seq<char>, UsageStat>, b: Map<Seq<char>, UsageStat>) -> bool {
    &&& a.dom() == b.dom()
    &&& forall|n: Seq<char>| #[trigger] a.contains_key(n) ==> a[n].usage_count == b[n].usage_count && a[n].size == b[n].size
}

proof fn lemma_step_same_counts(
    s1: ScanState,
    s2: ScanState,
    index: Map<Seq<char>, (Seq<char>, u64)>,
    kind: LineKind,
    l1: Option<(i64, u32)>,
    l2: Option<(i64, u32)>,
    file_time: Timestamp,
)
    requires
        same_counts(s1.0, s2.0),
    ensures
        same_counts(step(s1, index, kind, l1, file_time).0, step(s2, index, kind, l2, file_time).0),
{
    if let LineKind::Load(d) = kind {
        let a = step(s1, index, kind, l1, file_time).0;
        let b = step(s2, index, kind, l2, file_time).0;
        assert(a.dom() =~= b.dom());
    }
}

proof fn lemma_run_same_counts(
    s1: ScanState,
    s2: ScanState,
    index: Map<Seq<char>, (Seq<char>, u64)>,
    lines: Seq<Seq<char>>,
    a: Seq<Option<(i64, u32)>>,
    b: Seq<Option<(i64, u32)>>,
    file_time: Timestamp,
)
    requires
        same_counts(s1.0, s2.0),
    ensures
        same_counts(run(s1, index, lines, a, file_time).0, run(s2, index, lines, b, file_time).0),
    decreases lines.len(),
{
    if lines.len() > 0 {
        lemma_run_same_counts(s1, s2, index, lines.drop_last(), a, b, file_time);
        lemma_step_same_counts(
            run(s1, index, lines.drop_last(), a, file_time),
            run(s2, index, lines.drop_last(), b, file_time),
            index,
            line_kind(lines.last()),
            a[lines.len() - 1],
            b[lines.len() - 1],
            file_time,
        );
    }
}

proof fn lemma_run_logs_same_counts(
    m1: Map<Seq<char>, UsageStat>,
    m2: Map<Seq<char>, UsageStat>,
    index: Map<Seq<char>, (Seq<char>, u64)>,
    logs: Seq<LogFile>,
    a: Seq<Seq<Option<(i64, u32)>>>,
    b: Seq<Seq<Option<(i64, u32)>>>,
)
    requires
        same_counts(m1, m2),
    ensures
        same_counts(run_logs(m1, index, logs, a), run_logs(m2, index, logs, b)),
    decreases logs.len(),
{
    if logs.len() > 0 {
        lemma_run_logs_same_counts(m1, m2, index, logs.drop_last(), a, b);
        let last = logs.last();
        lemma_run_same_counts(
            (run_logs(m1, index, logs.drop_last(), a), None),
            (run_logs(m2, index, logs.drop_last(), b), None),
            index,
            str_views(last.lines@),
            a[logs.len() - 1],
            b[logs.len() - 1],
            last.modified,
        );
    }
}

/// Which names a scan of the log files records, with their counts and sizes,
/// does not depend on what the machine's clock answers on wall-clock lines.
pub proof fn lemma_counts_ignore_clock(
    index: Map<Seq<char>, (Seq<char>, u64)>,
    logs: Seq<LogFile>,
    a: Seq<Seq<Option<(i64, u32)>>>,
    b: Seq<Seq<Option<(i64, u32)>>>,
)
    ensures
        same_counts(run_logs(Map::empty(), index, logs, a), run_logs(Map::empty(), index, logs, b)),
{
    lemma_run_logs_same_counts(Map::empty(), Map::empty(), index, logs, a, b);
}

proof fn lemma_run_insert_other(
    st: ScanState,
    index: Map<Seq<char>, (Seq<char>, u64)>,
    lines: Seq<Seq<char>>,
    locals: Seq<Option<(i64, u32)>>,
    i: int,
    l: Seq<char>,
    x: Option<(i64, u32)>,
    file_time: Timestamp,
)
    requires
        0 <= i <= lines.len() <= locals.len(),
        line_kind(l) is Other,
    ensures
        run(st, index, lines.insert(i, l), locals.insert(i, x), file_time) == run(
            st,
            index,
            lines,
            locals,
            file_time,
        ),
    decreases lines.len(),
{
    let big = lines.insert(i, l);
    let bl = locals.insert(i, x);
    if i == lines.len() {
        assert(big.drop_last() =~= lines);
        assert(big.last() == l);
        lemma_run_ignores_later_locals(st, index, lines, bl, locals, file_time);
    } else {
        assert(big.drop_last() =~= lines.drop_last().insert(i, l));
        assert(big.last() == lines.last());
        assert(bl[big.len() - 1] == locals[lines.len() - 1]);
        lemma_run_insert_other(st, index, lines.drop_last(), locals, i, l, x, file_time);
    }
}

/// One more line anywhere in a log file, that is neither a readable timestamp
/// nor a model-load marker with a well-formed digest, changes nothing that the
/// scan records: with the same answers of the clock on the other lines, and
/// any answer on the new one, the usage map is the same.
pub proof fn lemma_unrecognised_line_in_scan(
    m: Map<Seq<char>, UsageStat>,
    index: Map<Seq<char>, (Seq<char>, u64)>,
    logs: Seq<LogFile>,
    logs2: Seq<LogFile>,
    locals: Seq<Seq<Option<(i64, u32)>>>,
    f: int,
    i: int,
    l: Seq<char>,
    x: Option<(i64, u32)>,
)
    requires
        0 <= f < logs.len(),
        logs2.len() == logs.len(),
        forall|k: int| 0 <= k < logs.len() && k != f ==> logs2[k] == logs[k],
        logs2[f].modified == logs[f].modified,
        0 <= i <= logs[f].lines.len(),
        str_views(logs2[f].lines@) == str_views(logs[f].lines@).insert(i, l),
        line_kind(l) is Other,
        locals.len() >= logs.len(),
        locals[f].len() == logs[f].lines.len(),
    ensures
        run_logs(m, index, logs2, locals.update(f, locals[f].insert(i, x))) == run_logs(m, index, logs, locals),
    decreases logs.len(),
{
    let l2 = locals.update(f, locals[f].insert(i, x));
    if f < logs.len() - 1 {
        lemma_unrecognised_line_in_scan(m, index, logs.drop_last(), logs2.drop_last(), locals, f, i, l, x);
        assert(logs2.last() == logs.last());
    } else {
        assert(logs2.drop_last() =~= logs.drop_last());
        lemma_run_logs_ignores_later_locals(m, index, logs.drop_last(), l2, locals);
        lemma_run_insert_other(
            (run_logs(m, index, logs.drop_last(), locals), None),
            index,
            str_views(logs[f].lines@),
            locals[f],
            i,
            l,
            x,
            logs[f].modified,
        );
    }
}

proof fn lemma_run_placeholder_size(
    st: ScanState,
    index: Map<Seq<char>, (Seq<char>, u64)>,
    lines: Seq<Seq<char>>,
    locals: Seq<Option<(i64, u32)>>,
    file_time: Timestamp,
    n: Seq<char>,
)
    requires
        st.0.contains_key(n) ==> st.0[n].size == 0,
        forall|k: Seq<char>| #[trigger] index.contains_key(k) ==> index[k].0 != n,
    ensures
        run(st, index, lines, locals, file_time).0.contains_key(n) ==> run(st, index, lines, locals, file_time).0[n].size == 0,
    decreases lines.len(),
{
    if lines.len() > 0 {
        lemma_run_placeholder_size(st, index, lines.drop_last(), locals, file_time, n);
        if let LineKind::Load(d) = line_kind(lines.last()) {
            if index.contains_key(d) {
                assert(index[d].0 != n);
            }
        }
    }
}

proof fn lemma_run_logs_placeholder_size(
    m: Map<Seq<char>, UsageStat>,
    index: Map<Seq<char>, (Seq<char>, u64)>,
    logs: Seq<LogFile>,
    locals: Seq<Seq<Option<(i64, u32)>>>,
    n: Seq<char>,
)
    requires
        m.contains_key(n) ==> m[n].size == 0,
        forall|k: Seq<char>| #[trigger] index.contains_key(k) ==> index[k].0 != n,
    ensures
        run_logs(m, index, logs, locals).contains_key(n) ==> run_logs(m, index, logs, locals)[n].size == 0,
    decreases logs.len(),
{
    if logs.len() > 0 {
        lemma_run_logs_placeholder_size(m, index, logs.drop_last(), locals, n);
        let last = logs.last();
        lemma_run_placeholder_size(
            (run_logs(m, index, logs.drop_last(), locals), None),
            index,
            str_views(last.lines@),
            locals[logs.len() - 1],
            last.modified,
            n,
        );
    }
}

proof fn lemma_run_keeps(
    st: ScanState,
    index: Map<Seq<char>, (Seq<char>, u64)>,
    lines: Seq<Seq<char>>,
    locals: Seq<Option<(i64, u32)>>,
    file_time: Timestamp,
    n: Seq<char>,
    k: int,
)
    requires
        0 <= k <= lines.len(),
        run(st, index, lines.subrange(0, k), locals, file_time).0.contains_key(n),
        run(st, index, lines.subrange(0, k), locals, file_time).0[n].usage_count >= 1,
    ensures
        run(st, index, lines, locals, file_time).0.contains_key(n),
        run(st, index, lines, locals, file_time).0[n].usage_count >= 1,
    decreases lines.len(),
{
    if k == lines.len() {
        assert(lines.subrange(0, k) =~= lines);
    } else {
        assert(lines.drop_last().subrange(0, k) =~= lines.subrange(0, k));
        lemma_run_keeps(st, index, lines.drop_last(), locals, file_time, n, k);
        lemma_step_never_lowers(
            run(st, index, lines.drop_last(), locals, file_time),
            index,
            line_kind(lines.last()),
            locals[lines.len() - 1],
            file_time,
            n,
        );
    }
}

proof fn lemma_run_logs_keeps(
    m: Map<Seq<char>, UsageStat>,
    index: Map<Seq<char>, (Seq<char>, u64)>,
    logs: Seq<LogFile>,
    locals: Seq<Seq<Option<(i64, u32)>>>,
    n: Seq<char>,
    k: int,
)
    requires
        0 <= k <= logs.len(),
        run_logs(m, index, logs.subrange(0, k), locals).contains_key(n),
        run_logs(m, index, logs.subrange(0, k), locals)[n].usage_count >= 1,
    ensures
        run_logs(m, index, logs, locals).contains_key(n),
        run_logs(m, index, logs, locals)[n].usage_count >= 1,
    decreases logs.len(),
{
    if k == logs.len() {
        assert(logs.subrange(0, k) =~= logs);
    } else {
        assert(logs.drop_last().subrange(0, k) =~= logs.subrange(0, k));
        lemma_run_logs_keeps(m, index, logs.drop_last(), locals, n, k);
        let last = logs.last();
        let lines = str_views(last.lines@);
        let st = (run_logs(m, index, logs.drop_last(), locals), None);
        assert(lines.subrange(0, 0) =~= Seq::<Seq<char>>::empty());
        lemma_run_keeps(st, index, lines, locals[logs.len() - 1], last.modified, n, 0);
    }
}

/// A model-load marker for a digest that the index lacks is counted, over the
/// whole scan, under the placeholder name with size 0, as long as no display
/// name of the index is that placeholder.
pub proof fn lemma_missing_digest_counted_as_deleted(
    index: Map<Seq<char>, (Seq<char>, u64)>,
    logs: Seq<LogFile>,
    locals: Seq<Seq<Option<(i64, u32)>>>,
    f: int,
    i: int,
    d: Seq<char>,
)
    requires
        0 <= f < logs.len(),
        0 <= i < logs[f].lines.len(),
        line_kind(logs[f].lines@[i]@) == LineKind::Load(d),
        !index.contains_key(d),
        forall|k: Seq<char>| #[trigger] index.contains_key(k) ==> index[k].0 != deleted_name(d),
    ensures
        run_logs(Map::empty(), index, logs, locals).contains_key(deleted_name(d)),
        run_logs(Map::empty(), index, logs, locals)[deleted_name(d)].size == 0,
        run_logs(Map::empty(), index, logs, locals)[deleted_name(d)].usage_count >= 1,
{
    let n = deleted_name(d);
    let empty = Map::<Seq<char>, UsageStat>::empty();
    lemma_run_logs_placeholder_size(empty, index, logs, locals, n);
    let pre = logs.subrange(0, f + 1);
    assert(pre.drop_last() =~= logs.subrange(0, f));
    assert(pre.last() == logs[f]);
    let lines = str_views(logs[f].lines@);
    let st = (run_logs(empty, index, logs.subrange(0, f), locals), None);
    let upto = lines.subrange(0, i + 1);
    assert(upto.drop_last() =~= lines.subrange(0, i));
    assert(upto.last() == logs[f].lines@[i]@);
    lemma_run_keeps(st, index, lines, locals[f], logs[f].modified, n, i + 1);
    lemma_run_logs_keeps(empty, index, logs, locals, n, f + 1);
}

proof fn lemma_run_without_wall_clock(
    st: ScanState,
    index: Map<Seq<char>, (Seq<char>, u64)>,
    lines: Seq<Seq<char>>,
    a: Seq<Option<(i64, u32)>>,
    b: Seq<Option<(i64, u32)>>,
    file_time: Timestamp,
)
    requires
        forall|k: int| 0 <= k < lines.len() ==> !(line_kind(#[trigger] lines[k]) is WallClock),
    ensures
        run(st, index, lines, a, file_time) == run(st, index, lines, b, file_time),
    decreases lines.len(),
{
    if lines.len() > 0 {
        assert(forall|k: int| 0 <= k < lines.len() - 1 ==> lines.drop_last()[k] == lines[k]);
        lemma_run_without_wall_clock(st, index, lines.drop_last(), a, b, file_time);
        assert(!(line_kind(lines[lines.len() - 1]) is WallClock));
    }
}

/// Log files without wall-clock lines scan to one usage map, whatever the
/// machine's clock would answer.
pub proof fn lemma_scan_without_wall_clock_ignores_clock(
    m: Map<Seq<char>, UsageStat>,
    index: Map<Seq<char>, (Seq<char>, u64)>,
    logs: Seq<LogFile>,
    a: Seq<Seq<Option<(i64, u32)>>>,
    b: Seq<Seq<Option<(i64, u32)>>>,
)
    requires
        forall|f: int, k: int|
            0 <= f < logs.len() && 0 <= k < logs[f].lines.len() ==> !(line_kind(
                #[trigger] logs[f].lines@[k]@,
            ) is WallClock),
    ensures
        run_logs(m, index, logs, a) == run_logs(m, index, logs, b),
    decreases logs.len(),
{
    if logs.len() > 0 {
        assert forall|f: int, k: int|
            0 <= f < logs.len() - 1 && 0 <= k < logs.drop_last()[f].lines.len() implies !(line_kind(
                #[trigger] logs.drop_last()[f].lines@[k]@,
            ) is WallClock) by {
            assert(logs.drop_last()[f] == logs[f]);
        }
        lemma_scan_without_wall_clock_ignores_clock(m, index, logs.drop_last(), a, b);
        let last = logs.last();
        let lines = str_views(last.lines@);
        assert forall|k: int| 0 <= k < lines.len() implies !(line_kind(#[trigger] lines[k]) is WallClock) by {
            assert(lines[k] == last.lines@[k]@);
            assert(last == logs[logs.len() - 1]);
        }
        lemma_run_without_wall_clock(
            (run_logs(m, index, logs.drop_last(), a), None),
            index,
            lines,
            a[logs.len() - 1],
            b[logs.len() - 1],
            last.modified,
        );
    }
}

} // verus!
