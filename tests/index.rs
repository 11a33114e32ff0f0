use model_usage::manifest::{
    find_model_manifests, parse_manifest_path, strip_digest_prefix, weights_layer, DigestIndex,
    ManifestFile, ModelLayer, ModelManifest,
};

fn parts(path: &str) -> Vec<String> {
    path.split('/').filter(|p| !p.is_empty()).map(|p| p.to_string()).collect()
}

fn layer(media: &str, digest: &str, size: u64) -> ModelLayer {
    ModelLayer { media_type: media.to_string(), digest: digest.to_string(), size }
}

const WEIGHTS: &str = "application/vnd.ollama.image.model";

fn manifest_file(path: &str, digest: &str, size: u64) -> ManifestFile {
    ManifestFile {
        components: parts(path),
        manifest: Some(ModelManifest {
            layers: vec![
                layer("application/vnd.ollama.image.template", "sha256:ffff", 10),
                layer(WEIGHTS, digest, size),
            ],
        }),
    }
}

#[test]
fn default_namespace_name() {
    let name = parse_manifest_path(&parts("/usr/share/ollama/manifests/registry.example/library/llama3/latest"));
    assert_eq!(name, Some("llama3:latest".to_string()));
}

#[test]
fn other_namespace_name() {
    let name = parse_manifest_path(&parts("/m/manifests/registry.example/alice/mymodel/v1"));
    assert_eq!(name, Some("alice/mymodel:v1".to_string()));
}

#[test]
fn short_path_has_no_name() {
    assert_eq!(parse_manifest_path(&parts("library/llama3/latest")), None);
    assert_eq!(parse_manifest_path(&parts("r/library/llama3/latest")), Some("llama3:latest".to_string()));
}

#[test]
fn digest_prefix_is_stripped() {
    assert_eq!(strip_digest_prefix(&"sha256:abc123".to_string()), "abc123");
    assert_eq!(strip_digest_prefix(&"abc123".to_string()), "abc123");
    assert_eq!(strip_digest_prefix(&"sha256".to_string()), "sha256");
}

#[test]
fn first_weights_layer_is_chosen() {
    let m = ModelManifest {
        layers: vec![layer("x", "a", 1), layer(WEIGHTS, "b", 2), layer(WEIGHTS, "c", 3)],
    };
    assert_eq!(weights_layer(&m), Some(1));
    let none = ModelManifest { layers: vec![layer("x", "a", 1)] };
    assert_eq!(weights_layer(&none), None);
}

#[test]
fn shared_digest_joins_names_in_visit_order() {
    let files = vec![
        manifest_file("/m/manifests/reg/library/foo/latest", "sha256:d1", 500),
        manifest_file("/m/manifests/reg/bob/foo/v2", "sha256:d1", 700),
    ];
    let index = find_model_manifests(&files);
    assert_eq!(index.lookup(&"d1".to_string()), Some(("foo:latest, bob/foo:v2".to_string(), 700)));

    let reversed = vec![
        manifest_file("/m/manifests/reg/bob/foo/v2", "sha256:d1", 700),
        manifest_file("/m/manifests/reg/library/foo/latest", "sha256:d1", 500),
    ];
    let index = find_model_manifests(&reversed);
    assert_eq!(index.lookup(&"d1".to_string()), Some(("bob/foo:v2, foo:latest".to_string(), 500)));
}

#[test]
fn unreadable_or_partial_manifests_are_skipped() {
    let files = vec![
        ManifestFile { components: parts("/m/manifests/reg/library/a/latest"), manifest: None },
        ManifestFile {
            components: parts("/m/manifests/reg/library/b/latest"),
            manifest: Some(ModelManifest { layers: vec![layer("other", "sha256:d2", 5)] }),
        },
        manifest_file("short/path", "sha256:d3", 5),
        manifest_file("/m/manifests/reg/library/c/latest", "d4", 9),
    ];
    let index = find_model_manifests(&files);
    assert_eq!(index.lookup(&"d2".to_string()), None);
    assert_eq!(index.lookup(&"d3".to_string()), None);
    assert_eq!(index.lookup(&"d4".to_string()), Some(("c:latest".to_string(), 9)));
}

#[test]
fn add_name_on_empty_index() {
    let mut index = DigestIndex::new();
    assert_eq!(index.lookup(&"x".to_string()), None);
    index.add_name("x".to_string(), "a:1".to_string(), 3);
    index.add_name("y".to_string(), "b:1".to_string(), 4);
    index.add_name("x".to_string(), "c:1".to_string(), 5);
    assert_eq!(index.lookup(&"x".to_string()), Some(("a:1, c:1".to_string(), 5)));
    assert_eq!(index.lookup(&"y".to_string()), Some(("b:1".to_string(), 4)));
}

#[test]
fn shared_digest_among_other_manifests() {
    let files = vec![
        manifest_file("/m/manifests/reg/library/other/latest", "sha256:d9", 1),
        manifest_file("/m/manifests/reg/library/llama3/latest", "sha256:d1", 500),
        manifest_file("/m/manifests/reg/library/more/latest", "sha256:d8", 2),
        manifest_file("/m/manifests/reg/library/llama3/8b", "sha256:d1", 600),
        ManifestFile { components: parts("/m/manifests/reg/library/broken/latest"), manifest: None },
    ];
    let index = find_model_manifests(&files);
    assert_eq!(index.lookup(&"d1".to_string()), Some(("llama3:latest, llama3:8b".to_string(), 600)));
    assert_eq!(index.lookup(&"d9".to_string()), Some(("other:latest".to_string(), 1)));
}
