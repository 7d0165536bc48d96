use gamo::script::RenameError;
use gamo::script::apply_renames;
use gamo::sphere::Config;
use gamo::sphere::Sphere;
use gamo::sphere::extract_forbid_words;
use gamo::store::Vocabulary;
use gamo::text::join_lines;

fn strings(items: &[&str]) -> Vec<String> {
    items.iter().map(|s| s.to_string()).collect()
}

fn layout_ab_wv() -> Vocabulary {
    Vocabulary::new().setup_layout(
        &"root".to_string(),
        &strings(&["a", "b"]),
        &strings(&["w", "v"]),
        "run",
    )
}

#[test]
fn layout_derivation_is_deterministic_and_ordered() {
    let voc = layout_ab_wv();
    let paths = voc.path_list();
    assert_eq!(
        paths,
        strings(&[
            "root/vocabulary/a/w.on",
            "root/vocabulary/a/v.on",
            "root/vocabulary/b/w.on",
            "root/vocabulary/b/v.on",
        ])
    );
    // deriving a second time gives the same layout
    assert_eq!(layout_ab_wv().path_list(), paths);
}

#[test]
fn layout_entries_carry_names_and_extension() {
    let voc = layout_ab_wv();
    assert_eq!(voc.carrier.len(), 2);
    assert_eq!(voc.carrier[0].folder, "a");
    assert_eq!(voc.carrier[0].dir, "root/vocabulary/a");
    assert_eq!(voc.carrier[0].paths[1].name, "v");
    assert_eq!(voc.carrier[0].paths[1].ext, "on");
    assert_eq!(voc.carrier[0].paths[1].full_name, "v.on");
    assert_eq!(voc.carrier[1].paths[0].path, "root/vocabulary/b/w.on");
}

#[test]
fn store_name_depends_on_the_run() {
    let voc = Vocabulary::new();
    assert_eq!(voc.get_name("aparter"), "aparter/vocabulary");
    assert_eq!(voc.get_name("anything"), "vocabulary");
}

#[test]
fn materialize_plan_is_idempotent() {
    let voc = layout_ab_wv();
    let (dirs, files) = voc.materialize_plan(&Vec::new(), &Vec::new());
    assert_eq!(dirs, strings(&["root/vocabulary/a", "root/vocabulary/b"]));
    assert_eq!(files.len(), 4);
    // once the first plan's entries exist, a second run plans nothing
    let (dirs2, files2) = voc.materialize_plan(&dirs, &files);
    assert_eq!(dirs2.len(), 0);
    assert_eq!(files2.len(), 0);
}

#[test]
fn materialize_plan_keeps_existing_entries_untouched() {
    let voc = layout_ab_wv();
    let have_dirs = strings(&["root/vocabulary/a"]);
    let have_files = strings(&["root/vocabulary/a/v.on", "root/vocabulary/b/w.on"]);
    let (dirs, files) = voc.materialize_plan(&have_dirs, &have_files);
    assert_eq!(dirs, strings(&["root/vocabulary/b"]));
    assert_eq!(files, strings(&["root/vocabulary/a/w.on", "root/vocabulary/b/v.on"]));
}

fn loaded_store() -> Vocabulary {
    let voc = layout_ab_wv();
    let contents = vec![
        strings(&["x\ny", ""]),          // a/w.on, a/v.on
        strings(&["z", "q\n\nr\n"]),     // b/w.on, b/v.on
    ];
    voc.load(&contents)
}

#[test]
fn aggregates_are_consistent() {
    let voc = loaded_store();
    let flat_len = voc.data_all.len();
    let by_type_len: usize = voc.data.iter().map(|b| b.list.len()).sum();
    let by_folder_len: usize = voc
        .core_data
        .iter()
        .map(|fb| fb.buckets.iter().map(|tb| tb.list.len()).sum::<usize>())
        .sum();
    assert_eq!(flat_len, 5);
    assert_eq!(by_type_len, flat_len);
    assert_eq!(by_folder_len, flat_len);
}

#[test]
fn flat_view_keeps_folder_then_type_then_line_order() {
    let voc = loaded_store();
    let words: Vec<&str> = voc.data_all.iter().map(|m| m.word.as_str()).collect();
    assert_eq!(words, vec!["x", "y", "z", "q", "r"]);
    assert_eq!(voc.data_all[0].folder, "a");
    assert_eq!(voc.data_all[0].tipo, "w");
    assert_eq!(voc.data_all[4].folder, "b");
    assert_eq!(voc.data_all[4].tipo, "v");
    assert_eq!(voc.data_all[4].line, 3);
}

#[test]
fn by_type_view_spans_folders_in_order() {
    let voc = loaded_store();
    assert_eq!(voc.data.len(), 2);
    assert_eq!(voc.data[0].tipo, "w");
    let w_words: Vec<&str> = voc.data[0].list.iter().map(|m| m.word.as_str()).collect();
    assert_eq!(w_words, vec!["x", "y", "z"]);
    assert_eq!(voc.data[1].tipo, "v");
    let v_words: Vec<&str> = voc.data[1].list.iter().map(|m| m.word.as_str()).collect();
    assert_eq!(v_words, vec!["q", "r"]);
}

#[test]
fn by_folder_view_keeps_the_partition() {
    let voc = loaded_store();
    assert_eq!(voc.core_data.len(), 2);
    assert_eq!(voc.core_data[0].folder, "a");
    assert_eq!(voc.core_data[0].buckets[0].tipo, "w");
    assert_eq!(voc.core_data[0].buckets[0].list.len(), 2);
    assert_eq!(voc.core_data[0].buckets[1].list.len(), 0);
    assert_eq!(voc.core_data[1].buckets[0].list.len(), 1);
    assert_eq!(voc.core_data[1].buckets[1].list.len(), 2);
}

#[test]
fn flatten_returns_the_flat_view() {
    let voc = loaded_store();
    assert_eq!(voc.flatten().len(), voc.data_all.len());
}

fn sphere_with(folders: &[&str], rename_script: &str) -> Sphere {
    let current_dir = "root".to_string();
    let config = Config::new()
        .setup(&current_dir, &folders.join(" "), "w v", rename_script)
        .unwrap();
    let vocabulary = Vocabulary::new().setup_layout(
        &current_dir,
        &config.folders.list,
        &config.types.list,
        "run",
    );
    Sphere { current_dir, config, vocabulary, name: "run".to_string() }
}

#[test]
fn rename_paths_cover_every_folder_and_change() {
    let sphere = sphere_with(&["a", "b"], "from: x to: y\n");
    let pairs = sphere.rename_paths();
    assert_eq!(
        pairs,
        vec![
            ("root/vocabulary/a/x.on".to_string(), "root/vocabulary/a/y.on".to_string()),
            ("root/vocabulary/b/x.on".to_string(), "root/vocabulary/b/y.on".to_string()),
        ]
    );
}

#[test]
fn rename_batch_is_consumed_and_comments_survive() {
    let sphere = sphere_with(&["f"], "// kept one\n// kept two\nfrom: x to: y\n");
    let pairs = sphere.rename_paths();
    let existing = strings(&["root/vocabulary/f/x.on"]);
    let after = apply_renames(&existing, &pairs).unwrap();
    assert!(after.contains(&"root/vocabulary/f/y.on".to_string()));
    assert!(!after.contains(&"root/vocabulary/f/x.on".to_string()));
    // the rewritten script holds exactly the comment block
    let rewritten = join_lines(&sphere.config.rename.comments);
    assert_eq!(rewritten, "// kept one\n// kept two");
}

#[test]
fn rename_fails_when_the_source_is_missing() {
    let pairs = vec![("f/x.on".to_string(), "f/y.on".to_string())];
    let existing = strings(&["f/z.on"]);
    assert!(matches!(apply_renames(&existing, &pairs), Err(RenameError::TargetMissing)));
}

#[test]
fn rename_never_overwrites_an_existing_destination() {
    let pairs = vec![("f/x.on".to_string(), "f/y.on".to_string())];
    let existing = strings(&["f/x.on", "f/y.on"]);
    assert!(matches!(apply_renames(&existing, &pairs), Err(RenameError::Conflict)));
}

#[test]
fn rename_batch_applies_in_order() {
    let pairs = vec![
        ("a".to_string(), "b".to_string()),
        ("b".to_string(), "c".to_string()),
    ];
    let existing = strings(&["a"]);
    let after = apply_renames(&existing, &pairs).unwrap();
    assert_eq!(after, strings(&["c"]));
}

#[test]
fn malformed_rename_script_fails_the_whole_config() {
    let current_dir = "root".to_string();
    let result = Config::new().setup(&current_dir, "a", "w", "nope\n");
    assert!(result.is_err());
}

#[test]
fn config_derives_its_file_locations() {
    let config = Config::new()
        .setup(&"root".to_string(), "a b", "w v", "// none\n")
        .unwrap();
    assert_eq!(config.dir, "root/config");
    assert_eq!(config.folders.file_path, "root/config/folders.on");
    assert_eq!(config.types.file_path, "root/config/types.on");
    assert_eq!(config.rename.file_path, "root/config/rename.on");
    assert_eq!(config.folders.list, strings(&["a", "b"]));
    assert_eq!(config.types.list, strings(&["w", "v"]));
}

#[test]
fn forbidden_words_are_the_flat_words() {
    let mut sphere = sphere_with(&["a", "b"], "");
    sphere.vocabulary = loaded_store();
    let words = extract_forbid_words(&sphere);
    assert_eq!(words, strings(&["x", "y", "z", "q", "r"]));
}

#[test]
fn join_lines_of_one_and_none() {
    assert_eq!(join_lines(&strings(&["solo"])), "solo");
    assert_eq!(join_lines(&Vec::new()), "");
}
