use redbpf::scaffold::plan_program;

#[test]
fn program_path_and_crate_from_library_name() {
    let bins = vec![Some("other".to_string()), None];
    let plan = plan_program(Some("probes_lib"), Some("pkg"), Some(&bins), "block_http").unwrap();
    assert_eq!(plan.crate_name, "probes_lib");
    assert_eq!(plan.path, "src/block_http/main.rs");
}

#[test]
fn crate_falls_back_to_package_name() {
    let bins = vec![];
    let plan = plan_program(None, Some("hello-bpf"), Some(&bins), "trace").unwrap();
    assert_eq!(plan.crate_name, "hello-bpf");
    assert_eq!(plan.path, "src/trace/main.rs");
}

#[test]
fn manifest_without_names_is_invalid() {
    let bins = vec![];
    let e = plan_program(None, None, Some(&bins), "trace").unwrap_err();
    assert_eq!(e.0, "invalid manifest syntax");
}

#[test]
fn program_entry_that_is_not_a_list_is_invalid() {
    let e = plan_program(Some("a"), None, None, "trace").unwrap_err();
    assert_eq!(e.0, "invalid manifest syntax");
}

#[test]
fn existing_program_name_is_refused() {
    let bins = vec![Some("trace".to_string()), Some("tracer".to_string())];
    let e = plan_program(Some("a"), None, Some(&bins), "tracer").unwrap_err();
    assert_eq!(e.0, "a program named `tracer' already exists");
    let ok = plan_program(Some("a"), None, Some(&bins), "trac");
    assert!(ok.is_ok());
}
