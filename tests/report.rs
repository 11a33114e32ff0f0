use model_usage::deletion::{deletion_outcome, split_model_names};
use model_usage::greet;
use model_usage::logscan::LogFile;
use model_usage::manifest::{ManifestFile, ModelLayer, ModelManifest};
use model_usage::report::{
    add_installed_models, get_model_usage, list_unused_models, name_less, ranks_ahead, sort_usage,
    unused_models, usage_report, InstalledModel,
};
use model_usage::timestamp::Timestamp;
use model_usage::usage::{ModelUsage, UsageStat, UsageTable};

const D: &str = "0123456789abcdef0123456789abcdef0123456789abcdef0123456789abcdef";
const E: &str = "fedcba9876543210fedcba9876543210fedcba9876543210fedcba9876543210";

fn ts(secs: i64) -> Timestamp {
    Timestamp { secs, nanos: 0 }
}

fn rec(name: &str, count: usize, used: i64) -> ModelUsage {
    ModelUsage { name: name.to_string(), last_used: ts(used), usage_count: count, size: 1 }
}

fn installed(name: &str, size: u64) -> InstalledModel {
    InstalledModel { name: name.to_string(), size, digest: String::new() }
}

fn names(v: &[ModelUsage]) -> Vec<String> {
    v.iter().map(|r| r.name.clone()).collect()
}

#[test]
fn never_loaded_model_gets_zero_record() {
    let mut table = UsageTable::new();
    add_installed_models(&mut table, &vec![installed("bar:latest", 1234)]);
    assert_eq!(
        table.get(&"bar:latest".to_string()),
        Some(UsageStat { usage_count: 0, last_used: Timestamp::epoch(), size: 1234 })
    );
}

#[test]
fn observed_usage_is_not_overwritten() {
    let mut table = UsageTable::new();
    table.record_load("foo:latest".to_string(), 500, Some(ts(100)), ts(200));
    add_installed_models(&mut table, &vec![installed("foo:latest", 999), installed("bar:latest", 7), installed("bar:latest", 8)]);
    assert_eq!(
        table.get(&"foo:latest".to_string()),
        Some(UsageStat { usage_count: 1, last_used: ts(100), size: 500 })
    );
    assert_eq!(
        table.get(&"bar:latest".to_string()),
        Some(UsageStat { usage_count: 0, last_used: ts(0), size: 7 })
    );
}

#[test]
fn report_order_count_then_time_then_name() {
    let sorted = sort_usage(vec![rec("a", 5, 10), rec("b", 5, 10), rec("c", 5, 20)]);
    assert_eq!(names(&sorted), vec!["c", "a", "b"]);
    let sorted = sort_usage(vec![rec("b", 5, 10), rec("c", 5, 20), rec("a", 5, 10)]);
    assert_eq!(names(&sorted), vec!["c", "a", "b"]);
    let sorted = sort_usage(vec![rec("z", 0, 0), rec("y", 9, 0), rec("x", 0, 0), rec("w", 3, 50)]);
    assert_eq!(names(&sorted), vec!["y", "w", "x", "z"]);
    assert_eq!(sort_usage(vec![]).len(), 0);
}

#[test]
fn comparisons() {
    assert!(name_less(&"abc".to_string(), &"abd".to_string()));
    assert!(name_less(&"ab".to_string(), &"abc".to_string()));
    assert!(!name_less(&"abc".to_string(), &"abc".to_string()));
    assert!(!name_less(&"b".to_string(), &"abc".to_string()));
    assert!(name_less(&"Z".to_string(), &"a".to_string()));
    assert!(ranks_ahead(&rec("z", 2, 0), &rec("a", 1, 99)));
    assert!(ranks_ahead(&rec("z", 1, 99), &rec("a", 1, 0)));
    assert!(ranks_ahead(&rec("a", 1, 0), &rec("b", 1, 0)));
    assert!(!ranks_ahead(&rec("b", 1, 0), &rec("a", 1, 0)));
}

fn load_line(digest: &str) -> String {
    format!("llama_model_loader: loaded meta data with 3 key-value pairs from /b/sha256-{} (GGUF)", digest)
}

fn manifests() -> Vec<ManifestFile> {
    let file = |path: &str, digest: &str, size: u64| ManifestFile {
        components: path.split('/').filter(|p| !p.is_empty()).map(|p| p.to_string()).collect(),
        manifest: Some(ModelManifest {
            layers: vec![ModelLayer {
                media_type: "application/vnd.ollama.image.model".to_string(),
                digest: format!("sha256:{}", digest),
                size,
            }],
        }),
    };
    vec![
        file("/m/manifests/reg/library/foo/latest", D, 500),
        file("/m/manifests/reg/library/bar/latest", "1111111111111111111111111111111111111111111111111111111111111111", 70),
    ]
}

fn logs() -> Vec<LogFile> {
    vec![
        LogFile {
            modified: ts(1704200000),
            lines: vec![
                "time=2024-01-01T10:00:00Z".to_string(),
                load_line(D),
                load_line(E),
                "time=2024-01-01T12:00:00Z".to_string(),
                load_line(D),
            ],
        },
        LogFile { modified: ts(1700000000), lines: vec![load_line(E)] },
    ]
}

fn live() -> Vec<InstalledModel> {
    vec![installed("foo:latest", 500), installed("bar:latest", 70), installed("baz:1b", 30)]
}

#[test]
fn full_analysis() {
    let report = get_model_usage(&manifests(), &logs(), &live());
    assert_eq!(names(&report), vec!["foo:latest", "fedcba98...-deleted", "bar:latest", "baz:1b"]);
    assert_eq!(report[0].usage_count, 2);
    assert_eq!(report[0].last_used, ts(1704110400));
    assert_eq!(report[1].usage_count, 2);
    assert_eq!(report[1].last_used, ts(1704103200));
    assert_eq!(report[1].size, 0);
    assert_eq!(report[2].usage_count, 0);
    assert_eq!(report[2].size, 70);
    assert_eq!(report[3].last_used, Timestamp::epoch());
}

#[test]
fn analysis_is_repeatable() {
    let a = get_model_usage(&manifests(), &logs(), &live());
    let b = get_model_usage(&manifests(), &logs(), &live());
    assert_eq!(a.len(), b.len());
    for (x, y) in a.iter().zip(b.iter()) {
        assert_eq!(x.name, y.name);
        assert_eq!(x.usage_count, y.usage_count);
        assert_eq!(x.last_used, y.last_used);
        assert_eq!(x.size, y.size);
    }
}

#[test]
fn unused_model_names() {
    assert_eq!(list_unused_models(&manifests(), &logs(), &live()), vec!["bar:latest", "baz:1b"]);
    let mut table = UsageTable::new();
    table.record_load("baz:1b".to_string(), 1, None, ts(0));
    assert_eq!(unused_models(&live(), &table), vec!["foo:latest", "bar:latest"]);
    let report = usage_report(table, &live());
    assert_eq!(names(&report), vec!["baz:1b", "bar:latest", "foo:latest"]);
}

#[test]
fn model_name_list_is_split_and_trimmed() {
    assert_eq!(split_model_names("foo:latest, bar:latest"), vec!["foo:latest", "bar:latest"]);
    assert_eq!(split_model_names("  a\t,b ,, c  "), vec!["a", "b", "", "c"]);
    assert_eq!(split_model_names(""), vec![""]);
    assert_eq!(split_model_names("x"), vec!["x"]);
}

#[test]
fn deletion_failures_are_joined() {
    assert_eq!(deletion_outcome(&vec![]), Ok(()));
    assert_eq!(deletion_outcome(&vec!["one".to_string()]), Err("one".to_string()));
    assert_eq!(
        deletion_outcome(&vec!["one".to_string(), "two".to_string()]),
        Err("one\ntwo".to_string())
    );
}

#[test]
fn greeting() {
    assert_eq!(greet("Ada"), "Hello, Ada! You've been greeted from Rust!");
}
