//! Merging the usage table with the installed models, and the order of the
//! usage report.
use crate::manifest::{find_model_manifests, index_of, ManifestFile};
use crate::logscan::{
    lemma_scan_without_wall_clock_ignores_clock, line_kind, parse_logs, run_logs, LogFile,
};
use crate::text::chars_of;
use crate::timestamp::{epoch_spec, Timestamp};
use crate::usage::{ModelUsage, UsageStat, UsageTable};
use vstd::prelude::*;

verus! {

broadcast use vstd::seq_lib::group_to_multiset_ensures;

/// A model that the serving daemon reports as installed.
pub struct InstalledModel {
    pub name: String,
    pub size: u64,
    pub digest: String,
}

/// The record of a model that was never seen loaded.
pub open spec fn never_used(size: u64) -> UsageStat {
    UsageStat { usage_count: 0, last_used: epoch_spec(), size }
}

/// The usage map with a never-used record for each installed model that has
/// none, taken in list order.
pub open spec fn with_installed(
    m: Map<Seq<char>, UsageStat>,
    models: Seq<InstalledModel>,
) -> Map<Seq<char>, UsageStat>
    decreases models.len(),
{
    if models.len() == 0 {
        m
    } else {
        let prev = with_installed(m, models.drop_last());
        let x = models.last();
        if prev.contains_key(x.name@) {
            prev
        } else {
            prev.insert(x.name@, never_used(x.size))
        }
    }
}

/// Strict lexicographic order on character sequences, by code point.
pub open spec fn name_lt(s: Seq<char>, t: Seq<char>) -> bool
    decreases s.len(),
{
    if s.len() == 0 {
        t.len() > 0
    } else if t.len() == 0 {
        false
    } else if s[0] != t[0] {
        s[0] < t[0]
    } else {
        name_lt(s.drop_first(), t.drop_first())
    }
}

/// `a` comes before `b` in the report: more loads first, then the more
/// recent last use, then the name.
pub open spec fn ranks_before(a: ModelUsage, b: ModelUsage) -> bool {
    ||| a.usage_count > b.usage_count
    ||| (a.usage_count == b.usage_count && b.last_used.before(a.last_used))
    ||| (a.usage_count == b.usage_count && a.last_used == b.last_used && name_lt(a.name@, b.name@))
}

/// No record ranks before one that precedes it.
pub open spec fn is_ranked(s: Seq<ModelUsage>) -> bool {
    forall|i: int, j: int| 0 <= i < j < s.len() ==> !ranks_before(#[trigger] s[j], #[trigger] s[i])
}

pub proof fn lemma_name_lt_irreflexive(s: Seq<char>)
    ensures
        !name_lt(s, s),
    decreases s.len(),
{
    if s.len() > 0 {
        lemma_name_lt_irreflexive(s.drop_first());
    }
}

pub proof fn lemma_name_lt_transitive(a: Seq<char>, b: Seq<char>, c: Seq<char>)
    requires
        name_lt(a, b),
        name_lt(b, c),
    ensures
        name_lt(a, c),
    decreases a.len(),
{
    if a.len() > 0 && b.len() > 0 && c.len() > 0 && a[0] == b[0] && b[0] == c[0] {
        lemma_name_lt_transitive(a.drop_first(), b.drop_first(), c.drop_first());
    }
}

pub proof fn lemma_name_lt_total(a: Seq<char>, b: Seq<char>)
    requires
        a != b,
    ensures
        name_lt(a, b) || name_lt(b, a),
    decreases a.len(),
{
    if a.len() > 0 && b.len() > 0 && a[0] == b[0] {
        assert(a.drop_first() != b.drop_first()) by {
            if a.drop_first() == b.drop_first() {
                assert(a =~= seq![a[0]] + a.drop_first());
                assert(b =~= seq![b[0]] + b.drop_first());
            }
        }
        lemma_name_lt_total(a.drop_first(), b.drop_first());
    } else if a.len() == 0 && b.len() == 0 {
        assert(a =~= b);
    } else if a.len() > 0 && b.len() > 0 {
    }
}

pub proof fn lemma_name_lt_asymmetric(a: Seq<char>, b: Seq<char>)
    requires
        name_lt(a, b),
    ensures
        !name_lt(b, a),
{
    if name_lt(b, a) {
        lemma_name_lt_transitive(a, b, a);
        lemma_name_lt_irreflexive(a);
    }
}

pub proof fn lemma_ranks_before_transitive(a: ModelUsage, b: ModelUsage, c: ModelUsage)
    requires
        ranks_before(a, b),
        ranks_before(b, c),
    ensures
        ranks_before(a, c),
{
    if a.usage_count == b.usage_count && b.usage_count == c.usage_count && a.last_used == b.last_used
        && b.last_used == c.last_used {
        lemma_name_lt_transitive(a.name@, b.name@, c.name@);
    }
}

pub proof fn lemma_ranks_before_asymmetric(a: ModelUsage, b: ModelUsage)
    requires
        ranks_before(a, b),
    ensures
        !ranks_before(b, a),
{
    if a.usage_count == b.usage_count && a.last_used == b.last_used {
        lemma_name_lt_asymmetric(a.name@, b.name@);
    }
}

/// Whether `a` comes before `b` by name.
pub fn name_less(a: &String, b: &String) -> (r: bool)
    ensures
        r == name_lt(a@, b@),
{
    let s = chars_of(a.as_str());
    let t = chars_of(b.as_str());
    let mut k: usize = 0;
    assert(s@.subrange(0, s.len() as int) =~= s@);
    assert(t@.subrange(0, t.len() as int) =~= t@);
    while k < s.len() && k < t.len()
        invariant
            s@ == a@,
            t@ == b@,
            k <= s.len(),
            k <= t.len(),
            name_lt(s@, t@) == name_lt(s@.subrange(k as int, s.len() as int), t@.subrange(k as int, t.len() as int)),
        decreases s.len() - k,
    {
        let ghost ss = s@.subrange(k as int, s.len() as int);
        let ghost tt = t@.subrange(k as int, t.len() as int);
        assert(ss[0] == s@[k as int] && tt[0] == t@[k as int]);
        if s[k] != t[k] {
            assert(ss.len() > 0 && tt.len() > 0 && ss[0] != tt[0]);
            assert(name_lt(ss, tt) == (ss[0] < tt[0]));
            return s[k] < t[k];
        }
        assert(ss.drop_first() =~= s@.subrange(k + 1, s.len() as int));
        assert(tt.drop_first() =~= t@.subrange(k + 1, t.len() as int));
        k = k + 1;
    }
    let ghost ss = s@.subrange(k as int, s.len() as int);
    let ghost tt = t@.subrange(k as int, t.len() as int);
    assert(ss.len() == 0 || tt.len() == 0);
    k == s.len() && k < t.len()
}

/// Whether `a` comes before `b` in the report.
pub fn ranks_ahead(a: &ModelUsage, b: &ModelUsage) -> (r: bool)
    ensures
        r == ranks_before(*a, *b),
{
    if a.usage_count != b.usage_count {
        return a.usage_count > b.usage_count;
    }
    if a.last_used != b.last_used {
        return b.last_used.is_before(&a.last_used);
    }
    name_less(&a.name, &b.name)
}

/// No two records share a name.
pub open spec fn distinct_names(s: Seq<ModelUsage>) -> bool {
    forall|i: int, j: int| 0 <= i < j < s.len() ==> (#[trigger] s[i]).name@ != (#[trigger] s[j]).name@
}

/// The records in report order.
pub fn sort_usage(v: Vec<ModelUsage>) -> (r: Vec<ModelUsage>)
    requires
        distinct_names(v@),
    ensures
        is_ranked(r@),
        distinct_names(r@),
        r@.to_multiset() == v@.to_multiset(),
{
    let mut rest = v;
    let mut out: Vec<ModelUsage> = Vec::new();
    while rest.len() > 0
        invariant
            is_ranked(out@),
            distinct_names(out@),
            distinct_names(rest@),
            forall|a: int, b: int| 0 <= a < out.len() && 0 <= b < rest.len() ==> (#[trigger] out@[a]).name@ != (#[trigger] rest@[b]).name@,
            out@.to_multiset().add(rest@.to_multiset()) == v@.to_multiset(),
        decreases rest.len(),
    {
        let ghost before = rest@;
        let x = rest.pop().unwrap();
        assert(before =~= rest@.push(x));
        assert(forall|b: int| 0 <= b < rest.len() ==> rest@[b] == #[trigger] before[b]);
        assert(forall|a: int| 0 <= a < out.len() ==> (#[trigger] out@[a]).name@ != before[before.len() - 1].name@);
        let mut j: usize = 0;
        while j < out.len() && !ranks_ahead(&x, &out[j])
            invariant
                j <= out.len(),
                forall|k: int| 0 <= k < j ==> !ranks_before(x, #[trigger] out@[k]),
            decreases out.len() - j,
        {
            j = j + 1;
        }
        let ghost old_out = out@;
        proof {
            if j < out.len() {
                assert(ranks_before(x, out@[j as int]));
                lemma_ranks_before_asymmetric(x, out@[j as int]);
                assert forall|k: int| j <= k < old_out.len() implies !ranks_before(#[trigger] old_out[k], x) by {
                    if ranks_before(old_out[k], x) && k > j {
                        lemma_ranks_before_transitive(old_out[k], x, old_out[j as int]);
                    }
                }
            }
        }
        out.insert(j, x);
        proof {
            let n = out@;
            assert forall|a: int, b: int| 0 <= a < b < n.len() implies !ranks_before(#[trigger] n[b], #[trigger] n[a]) by {
                if a < j && b < j {
                    assert(n[a] == old_out[a] && n[b] == old_out[b]);
                } else if a < j && b == j {
                } else if a < j {
                    assert(n[a] == old_out[a] && n[b] == old_out[b - 1]);
                } else if a == j {
                    assert(n[b] == old_out[b - 1]);
                } else {
                    assert(n[a] == old_out[a - 1] && n[b] == old_out[b - 1]);
                }
            }
            assert forall|a: int, b: int| 0 <= a < b < n.len() implies (#[trigger] n[a]).name@ != (#[trigger] n[b]).name@ by {
                if a < j && b < j {
                    assert(n[a] == old_out[a] && n[b] == old_out[b]);
                } else if a < j && b == j {
                    assert(n[a] == old_out[a]);
                } else if a < j {
                    assert(n[a] == old_out[a] && n[b] == old_out[b - 1]);
                } else if a == j {
                    assert(n[b] == old_out[b - 1]);
                } else {
                    assert(n[a] == old_out[a - 1] && n[b] == old_out[b - 1]);
                }
            }
            assert forall|a: int, b: int| 0 <= a < n.len() && 0 <= b < rest.len() implies (#[trigger] n[a]).name@ != (#[trigger] rest@[b]).name@ by {
                assert(rest@[b] == before[b]);
                if a < j {
                    assert(n[a] == old_out[a]);
                } else if a > j {
                    assert(n[a] == old_out[a - 1]);
                }
            }
            vstd::seq_lib::to_multiset_insert(old_out, j as int, x);
        }
    }
    out
}

/// `r` lists exactly the records of `m`, one per name, in report order.
pub open spec fn is_report_of(r: Seq<ModelUsage>, m: Map<Seq<char>, UsageStat>) -> bool {
    &&& is_ranked(r)
    &&& distinct_names(r)
    &&& forall|i: int| 0 <= i < r.len() ==> #[trigger] m.contains_key(r[i].name@) && m[r[i].name@] == r[i].stat()
    &&& forall|n: Seq<char>| #[trigger] m.contains_key(n) ==> exists|i: int| 0 <= i < r.len() && r[i].name@ == n
}

/// Adds a never-used record for each installed model that has no record.
pub fn add_installed_models(table: &mut UsageTable, installed: &Vec<InstalledModel>)
    requires
        old(table).wf(),
    ensures
        final(table).wf(),
        final(table)@ == with_installed(old(table)@, installed@),
{
    let ghost start = table@;
    let mut i: usize = 0;
    while i < installed.len()
        invariant
            i <= installed.len(),
            table.wf(),
            table@ == with_installed(start, installed@.subrange(0, i as int)),
        decreases installed.len() - i,
    {
        let model = &installed[i];
        let stat = UsageStat { usage_count: 0, last_used: Timestamp::epoch(), size: model.size };
        table.insert_if_absent(model.name.clone(), stat);
        assert(installed@.subrange(0, i + 1).drop_last() =~= installed@.subrange(0, i as int));
        i = i + 1;
    }
    assert(installed@.subrange(0, installed.len() as int) =~= installed@);
}

/// The usage report: the table's records together with a never-used record
/// for each installed model that has none, in report order.
pub fn usage_report(table: UsageTable, installed: &Vec<InstalledModel>) -> (r: Vec<ModelUsage>)
    requires
        table.wf(),
    ensures
        is_report_of(r@, with_installed(table@, installed@)),
{
    let mut table = table;
    add_installed_models(&mut table, installed);
    let ghost m = table@;
    let recs = table.into_records();
    let r = sort_usage(recs);
    assert forall|i: int| 0 <= i < r.len() implies #[trigger] m.contains_key(r@[i].name@) && m[r@[i].name@]
        == r@[i].stat() by {
        assert(r@.to_multiset().count(r@[i]) > 0);
        assert(recs@.contains(r@[i]));
    }
    assert forall|n: Seq<char>| #[trigger] m.contains_key(n) implies exists|i: int| 0 <= i < r.len() && r@[i].name@ == n by {
        let k = choose|k: int| 0 <= k < recs.len() && recs@[k].name@ == n;
        assert(recs@.to_multiset().count(recs@[k]) > 0);
        assert(r@.contains(recs@[k]));
    }
    r
}

/// The names of the installed models that have no record in `m`, in list order.
pub open spec fn unused_names(models: Seq<InstalledModel>, m: Map<Seq<char>, UsageStat>) -> Seq<Seq<char>>
    decreases models.len(),
{
    if models.len() == 0 {
        Seq::empty()
    } else {
        let prev = unused_names(models.drop_last(), m);
        if m.contains_key(models.last().name@) {
            prev
        } else {
            prev.push(models.last().name@)
        }
    }
}

/// The installed models that were never seen loaded.
pub fn unused_models(installed: &Vec<InstalledModel>, table: &UsageTable) -> (r: Vec<String>)
    requires
        table.wf(),
    ensures
        crate::manifest::str_views(r@) == unused_names(installed@, table@),
{
    let mut r: Vec<String> = Vec::new();
    let mut i: usize = 0;
    while i < installed.len()
        invariant
            i <= installed.len(),
            table.wf(),
            crate::manifest::str_views(r@) == unused_names(installed@.subrange(0, i as int), table@),
        decreases installed.len() - i,
    {
        let ghost before = r@;
        if !table.contains(&installed[i].name) {
            r.push(installed[i].name.clone());
            assert(crate::manifest::str_views(r@) =~= crate::manifest::str_views(before).push(installed@[i as int].name@));
        }
        assert(installed@.subrange(0, i + 1).drop_last() =~= installed@.subrange(0, i as int));
        i = i + 1;
    }
    assert(installed@.subrange(0, installed.len() as int) =~= installed@);
    r
}

/// The whole analysis: the digest index from the manifest files, the usage
/// table from the log files, and the report against the installed models. The
/// result is the report for some answers of the machine's clock on the
/// wall-clock lines of the logs.
pub fn get_model_usage(
    manifests: &Vec<ManifestFile>,
    logs: &Vec<LogFile>,
    installed: &Vec<InstalledModel>,
) -> (r: Vec<ModelUsage>)
    ensures
        exists|locals: Seq<Seq<Option<(i64, u32)>>>|
            locals.len() == logs.len() && is_report_of(
                r@,
                with_installed(#[trigger] run_logs(Map::empty(), index_of(manifests@), logs@, locals), installed@),
            ),
{
    let index = find_model_manifests(manifests);
    let table = parse_logs(&index, logs);
    usage_report(table, installed)
}

/// The installed models that no log file shows loaded, in list order.
pub fn list_unused_models(
    manifests: &Vec<ManifestFile>,
    logs: &Vec<LogFile>,
    installed: &Vec<InstalledModel>,
) -> (r: Vec<String>)
    ensures
        exists|locals: Seq<Seq<Option<(i64, u32)>>>|
            locals.len() == logs.len() && crate::manifest::str_views(r@) == unused_names(
                installed@,
                #[trigger] run_logs(Map::empty(), index_of(manifests@), logs@, locals),
            ),
{
    let index = find_model_manifests(manifests);
    let table = parse_logs(&index, logs);
    unused_models(installed, &table)
}

pub proof fn lemma_ranks_before_total(a: ModelUsage, b: ModelUsage)
    requires
        a.name@ != b.name@,
    ensures
        ranks_before(a, b) || ranks_before(b, a),
{
    lemma_name_lt_total(a.name@, b.name@);
}

/// In a ranked sequence with distinct names, every record ranks before each
/// one after it.
proof fn lemma_ranked_strict(s: Seq<ModelUsage>, i: int, j: int)
    requires
        is_ranked(s),
        distinct_names(s),
        0 <= i < j < s.len(),
    ensures
        ranks_before(s[i], s[j]),
{
    lemma_ranks_before_total(s[i], s[j]);
}

/// Two reports of one usage map agree on the first `k` records.
proof fn lemma_reports_agree_upto(r1: Seq<ModelUsage>, r2: Seq<ModelUsage>, m: Map<Seq<char>, UsageStat>, k: int)
    requires
        is_report_of(r1, m),
        is_report_of(r2, m),
        0 <= k <= r1.len(),
        k <= r2.len(),
    ensures
        forall|i: int| 0 <= i < k ==> (#[trigger] r1[i]).name@ == r2[i].name@ && r1[i].stat() == r2[i].stat(),
    decreases k,
{
    if k > 0 {
        lemma_reports_agree_upto(r1, r2, m, k - 1);
        let c = k - 1;
        let x = r1[c];
        let y = r2[c];
        assert(m.contains_key(x.name@));
        assert(m.contains_key(y.name@));
        if x.name@ != y.name@ {
            let p = choose|p: int| 0 <= p < r2.len() && r2[p].name@ == x.name@;
            let q = choose|q: int| 0 <= q < r1.len() && r1[q].name@ == y.name@;
            if p < c {
                assert(r1[p].name@ == r2[p].name@);
            }
            if q < c {
                assert(r1[q].name@ == r2[q].name@);
            }
            assert(p > c);
            assert(q > c);
            lemma_ranked_strict(r1, c, q);
            lemma_ranked_strict(r2, c, p);
            assert(r1[q].stat() == y.stat());
            assert(r2[p].stat() == x.stat());
            lemma_ranks_before_asymmetric(x, y);
        }
    }
}

/// A usage map has one report: two runs that reach the same usage map list
/// the same records in the same order.
pub proof fn lemma_report_is_unique(r1: Seq<ModelUsage>, r2: Seq<ModelUsage>, m: Map<Seq<char>, UsageStat>)
    requires
        is_report_of(r1, m),
        is_report_of(r2, m),
    ensures
        r1.len() == r2.len(),
        forall|i: int| 0 <= i < r1.len() ==> (#[trigger] r1[i]).name@ == r2[i].name@ && r1[i].stat() == r2[i].stat(),
{
    if r1.len() < r2.len() {
        lemma_reports_agree_upto(r1, r2, m, r1.len() as int);
        let z = r2[r1.len() as int];
        assert(m.contains_key(z.name@));
        let q = choose|q: int| 0 <= q < r1.len() && r1[q].name@ == z.name@;
        assert(r1[q].name@ == r2[q].name@);
    } else if r2.len() < r1.len() {
        lemma_reports_agree_upto(r2, r1, m, r2.len() as int);
        let z = r1[r2.len() as int];
        assert(m.contains_key(z.name@));
        let q = choose|q: int| 0 <= q < r2.len() && r2[q].name@ == z.name@;
        assert(r2[q].name@ == r1[q].name@);
    }
    lemma_reports_agree_upto(r1, r2, m, r1.len() as int);
}

/// Running the whole analysis twice over the same manifest files, log files
/// and installed models, with the machine's clock answering the same on the
/// wall-clock lines, gives the same report in the same order.
pub proof fn lemma_analysis_is_repeatable(
    manifests: Seq<ManifestFile>,
    logs: Seq<LogFile>,
    installed: Seq<InstalledModel>,
    locals: Seq<Seq<Option<(i64, u32)>>>,
    r1: Seq<ModelUsage>,
    r2: Seq<ModelUsage>,
)
    requires
        is_report_of(r1, with_installed(run_logs(Map::empty(), index_of(manifests), logs, locals), installed)),
        is_report_of(r2, with_installed(run_logs(Map::empty(), index_of(manifests), logs, locals), installed)),
    ensures
        r1.len() == r2.len(),
        forall|i: int| 0 <= i < r1.len() ==> (#[trigger] r1[i]).name@ == r2[i].name@ && r1[i].stat() == r2[i].stat(),
{
    lemma_report_is_unique(r1, r2, with_installed(run_logs(Map::empty(), index_of(manifests), logs, locals), installed));
}

/// Over log files without wall-clock lines, two runs of the whole analysis on
/// the same manifest files, log files and installed models give the same
/// report in the same order, whatever the machine's clock would answer.
pub proof fn lemma_analysis_without_wall_clock_is_repeatable(
    manifests: Seq<ManifestFile>,
    logs: Seq<LogFile>,
    installed: Seq<InstalledModel>,
    a: Seq<Seq<Option<(i64, u32)>>>,
    b: Seq<Seq<Option<(i64, u32)>>>,
    r1: Seq<ModelUsage>,
    r2: Seq<ModelUsage>,
)
    requires
        forall|f: int, k: int|
            0 <= f < logs.len() && 0 <= k < logs[f].lines.len() ==> !(line_kind(
                #[trigger] logs[f].lines@[k]@,
            ) is WallClock),
        is_report_of(r1, with_installed(run_logs(Map::empty(), index_of(manifests), logs, a), installed)),
        is_report_of(r2, with_installed(run_logs(Map::empty(), index_of(manifests), logs, b), installed)),
    ensures
        r1.len() == r2.len(),
        forall|i: int| 0 <= i < r1.len() ==> (#[trigger] r1[i]).name@ == r2[i].name@ && r1[i].stat() == r2[i].stat(),
{
    lemma_scan_without_wall_clock_ignores_clock(Map::empty(), index_of(manifests), logs, a, b);
    lemma_report_is_unique(r1, r2, with_installed(run_logs(Map::empty(), index_of(manifests), logs, a), installed));
}

} // verus!
