use std::collections::HashMap;

use ttx_runtime::chip::Arch;
use ttx_runtime::firmware;
use ttx_runtime::kernel_cache;
use ttx_runtime::kernel_cache::{KernelCache, KernelCacheStore, KernelKey};
use ttx_runtime::load_options::LoadOptions;
use ttx_runtime::workload::{OutputBuffer, SourceFile, WorkloadBuilder};

fn builder(space: u64) -> WorkloadBuilder {
    let mut builder = WorkloadBuilder::default();
    builder.available_space = space;
    builder.inputs = vec!["a".to_string()];
    builder.outputs = vec![OutputBuffer { name: "o".to_string(), size: 1, count: 2 }];
    builder.brisc = "x".to_string();
    builder
}

fn key(space: u64) -> KernelKey {
    firmware::workload_key(Arch::Wormhole, builder(space))
}

fn is_random(name: &str) -> bool {
    name.len() == 36
        && name.chars().enumerate().all(|(i, c)| match i {
            8 | 13 | 18 | 23 => c == '-',
            14 => c == '4',
            19 => matches!(c, '8' | '9' | 'a' | 'b'),
            _ => c.is_ascii_digit() || ('a'..='f').contains(&c),
        })
}

#[test]
fn keys_are_compared_by_what_they_hold() {
    assert!(key(1).same(&key(1)));
    assert!(!key(1).same(&key(2)));
    assert!(!key(1).same(&firmware::firmware_key("push")));
    assert!(firmware::firmware_key("push").same(&firmware::firmware_key("push")));
    assert!(!firmware::firmware_key("push").same(&firmware::firmware_key("pull")));
    let other = firmware::workload_key(Arch::Blackhole, builder(1));
    assert!(!key(1).same(&other));
    let mut changed = builder(1);
    changed.outputs[0].count = 3;
    assert!(!key(1).same(&firmware::workload_key(Arch::Wormhole, changed)));
    let mut changed = builder(1);
    changed.inputs.push("b".to_string());
    assert!(!key(1).same(&firmware::workload_key(Arch::Wormhole, changed)));
    let mut changed = builder(1);
    changed.trisc1 = "y".to_string();
    assert!(!key(1).same(&firmware::workload_key(Arch::Wormhole, changed)));
    assert!(matches!(key(1), KernelKey::KernelParameters(arch, _) if arch == "Wormhole"));
}

#[test]
fn a_kernel_keeps_its_name_on_values() {
    let mut store = KernelCacheStore::new();
    assert_eq!(store.get(&key(1)), None);
    assert_eq!(store.resolve(key(1), "first".to_string()), "first");
    assert_eq!(store.resolve(key(2), "second".to_string()), "second");
    assert_eq!(store.resolve(key(1), "third".to_string()), "first");
    assert_eq!(store.resolve(firmware::firmware_key("push"), "fourth".to_string()), "push");
    assert_eq!(store.get(&key(2)), Some("second".to_string()));
}

#[test]
fn names_survive_being_kept() {
    let mut store = KernelCacheStore::new();
    store.resolve(key(1), "first".to_string());
    store.resolve(key(2), "second".to_string());
    let entries = store.into_entries();
    assert_eq!(entries.len(), 2);
    let store = KernelCacheStore::from_entries(entries);
    assert_eq!(store.get(&key(1)), Some("first".to_string()));
    assert_eq!(store.get(&key(2)), Some("second".to_string()));
    assert_eq!(store.get(&key(3)), None);

    let twice = vec![(key(1), "old".to_string()), (key(1), "new".to_string())];
    let store = KernelCacheStore::from_entries(twice);
    assert_eq!(store.get(&key(1)), Some("new".to_string()));
    assert_eq!(store.into_entries().len(), 1);
}

#[test]
fn kernels_get_random_names() {
    let mut cache = KernelCache { path: "/cache".to_string(), cache: KernelCacheStore::new() };
    let (name, dir) = cache.cache_build(key(1), true);
    assert!(is_random(&name));
    assert_eq!(dir, Some(format!("/src/{name}")));
    assert_eq!(cache.cache_build(key(1), true), (name.clone(), dir));
    let (other, _) = cache.cache_build(key(2), true);
    assert!(is_random(&other));
    assert_ne!(other, name);
    assert_eq!(cache.cache_build(firmware::firmware_key("push"), true).0, "push");
    assert_eq!(cache.path, "/cache");
}

#[test]
fn a_cache_that_is_not_usable_is_not_asked() {
    let mut cache = KernelCache { path: "/cache".to_string(), cache: KernelCacheStore::new() };
    cache.cache.resolve(key(1), "kept".to_string());
    let (name, _) = cache.cache_build(key(1), false);
    assert!(is_random(&name));
    assert_eq!(cache.cache_build(firmware::firmware_key("push"), false).0, "push");
    assert_eq!(cache.cache.get(&firmware::firmware_key("push")), None);
    assert_eq!(cache.cache.get(&key(1)), Some("kept".to_string()));
}

#[test]
fn sources_are_kept_next_to_the_cache() {
    assert_eq!(
        kernel_cache::source_dir("/home/me/cache/names.postcard", "push"),
        Some("/home/me/cache/src/push".to_string())
    );
    assert_eq!(
        kernel_cache::source_dir("cache/names.postcard", "push"),
        Some("cache/src/push".to_string())
    );
    assert_eq!(kernel_cache::source_dir("names", "push"), Some("src/push".to_string()));
    assert_eq!(kernel_cache::source_dir("/names", "push"), Some("/src/push".to_string()));
    for (path, dir) in [
        (".cache/names", ".cache/src/push"),
        ("/home/me/.cache/.names", "/home/me/.cache/src/push"),
        ("../names", "../src/push"),
        ("a/../names", "a/../src/push"),
        ("./names", "./src/push"),
    ] {
        assert_eq!(kernel_cache::source_dir(path, "push"), Some(dir.to_string()));
    }
    assert_eq!(kernel_cache::source_dir("/names", ""), Some("/src/".to_string()));
    assert_eq!(kernel_cache::source_dir("a/names", "/push"), Some("/push".to_string()));
    assert_eq!(kernel_cache::source_dir("/", "push"), None);
    assert_eq!(kernel_cache::source_dir("", "push"), None);

    let path = "/home/me/cache/names.postcard".to_string();
    let mut cache = KernelCache { path, cache: KernelCacheStore::new() };
    let push = ("push".to_string(), Some("/home/me/cache/src/push".to_string()));
    assert_eq!(cache.cache_build(firmware::firmware_key("push"), true), push);
    cache.cache_build(key(1), true);
    assert_eq!(cache.cache_build(firmware::firmware_key("push"), true), push);
    assert_eq!(cache.cache_build(firmware::firmware_key("push"), false), push);
}

#[test]
fn every_file_has_a_place_below_the_directory() {
    let files = vec![
        SourceFile { path: "Cargo.toml".to_string(), text: "[package]".to_string() },
        SourceFile { path: "src/main.rs".to_string(), text: "fn main() {}".to_string() },
    ];
    let placed = kernel_cache::place_sources("/cache/src/push", &files);
    assert_eq!(placed.len(), 2);
    assert_eq!(placed[0].path, "/cache/src/push/Cargo.toml");
    assert_eq!(placed[0].text, "[package]");
    assert_eq!(placed[1].path, "/cache/src/push/src/main.rs");
    assert_eq!(placed[1].text, "fn main() {}");
}

#[test]
fn files_are_written_when_they_differ() {
    let source = "caf\u{e9}".to_string();
    assert!(kernel_cache::must_write(&None, &source));
    assert!(!kernel_cache::must_write(&Some(source.clone().into_bytes()), &source));
    assert!(kernel_cache::must_write(&Some(b"caf".to_vec()), &source));
    assert!(kernel_cache::must_write(&Some(b"cafes".to_vec()), &source));
}

#[test]
fn a_cached_build_runs_in_the_cache() {
    let build = firmware::build_cached(
        "kernel",
        "/cache/src/kernel",
        Arch::Wormhole,
        LoadOptions::new_without_base(),
        None,
        vec!["-v".to_string()],
    );
    assert_eq!(build.path, "/cache/src/kernel");
    assert_eq!(build.options.kernel_name, "kernel");
    assert_eq!(build.options.extra_flags, ["-v"]);
}

#[test]
fn files_in_place_are_not_written_again() {
    let file = |path: &str, text: &str| SourceFile { path: path.to_string(), text: text.to_string() };
    let files = vec![file("Cargo.toml", "[package]"), file("src/main.rs", "fn main() {}")];
    let mut disk: HashMap<String, Vec<u8>> = HashMap::new();
    disk.insert("/cache/src/push/Cargo.toml".to_string(), b"[package]".to_vec());
    disk.insert("/cache/src/push/src/main.rs".to_string(), b"old".to_vec());
    disk.insert("/cache/other".to_string(), b"kept".to_vec());
    for expected in [vec!["/cache/src/push/src/main.rs"], vec![]] {
        let mut written = Vec::new();
        for file in kernel_cache::place_sources("/cache/src/push", &files) {
            if kernel_cache::must_write(&disk.get(&file.path).cloned(), &file.text) {
                disk.insert(file.path.clone(), file.text.into_bytes());
                written.push(file.path);
            }
        }
        assert_eq!(written, expected);
        assert_eq!(disk["/cache/src/push/Cargo.toml"], b"[package]");
        assert_eq!(disk["/cache/src/push/src/main.rs"], b"fn main() {}");
        assert_eq!(disk["/cache/other"], b"kept");
    }
}
