use gpupe::renderer::compute::{compute_passes, work_groups, ComputePass, PASS_COUNT};
use gpupe::renderer::program::{is_valid_uniform_name, shader_file_names, Program};

fn linked() -> Program {
    Program::linked(7, 1).expect("a non-zero link status links")
}

#[test]
fn failed_link_gives_no_program() {
    assert!(Program::linked(3, 0).is_none());
}

#[test]
fn linked_program_keeps_its_id_and_starts_uncached() {
    let p = Program::linked(42, 1).unwrap();
    assert_eq!(p.id(), 42);
    assert_eq!(p.cached_location("pass_type"), None);
    assert!(p.needs_location_query("pass_type"));
    // any non-zero status counts as linked
    assert_eq!(Program::linked(5, -3).unwrap().id(), 5);
}

#[test]
fn register_caches_found_location() {
    let mut p = linked();
    assert!(p.register_uniform("pass_type", 4));
    assert_eq!(p.cached_location("pass_type"), Some(4));
    assert!(!p.needs_location_query("pass_type"));
    assert_eq!(p.id(), 7);
}

#[test]
fn register_refuses_missing_uniform() {
    let mut p = linked();
    assert!(!p.register_uniform("missing", -1));
    assert_eq!(p.cached_location("missing"), None);
    assert!(p.needs_location_query("missing"));
}

#[test]
fn register_keeps_first_location() {
    let mut p = linked();
    assert!(p.register_uniform("a", 2));
    assert!(p.register_uniform("a", 9));
    assert!(p.register_uniform("a", -1));
    assert_eq!(p.cached_location("a"), Some(2));
}

#[test]
fn register_keeps_other_names() {
    let mut p = linked();
    assert!(p.register_uniform("a", 0));
    assert!(p.register_uniform("b", 1));
    assert!(!p.register_uniform("c", -1));
    assert_eq!(p.cached_location("a"), Some(0));
    assert_eq!(p.cached_location("b"), Some(1));
    assert_eq!(p.cached_location("c"), None);
}

#[test]
fn set_i32_returns_location_and_value() {
    let mut p = linked();
    assert_eq!(p.set_i32("pass_type", 3, 5), Some((5, 3)));
    // cached now: the later query answer is not used
    assert_eq!(p.set_i32("pass_type", 0, 11), Some((5, 0)));
    assert_eq!(p.set_i32("nothing", 1, -1), None);
    assert_eq!(p.cached_location("nothing"), None);
}

#[test]
fn shader_files_of_a_program() {
    let names = shader_file_names("shaders/triangle");
    assert_eq!(names, vec!["shaders/triangle.vert".to_string(), "shaders/triangle.frag".to_string()]);
    assert_eq!(shader_file_names(""), vec![".vert".to_string(), ".frag".to_string()]);
}

#[test]
fn compute_passes_run_backwards_with_cleanup_first() {
    let passes = compute_passes();
    assert_eq!(PASS_COUNT, 4);
    assert_eq!(
        passes,
        vec![
            ComputePass { pass_type: 3, work_groups: 512 },
            ComputePass { pass_type: 2, work_groups: 64 },
            ComputePass { pass_type: 1, work_groups: 64 },
            ComputePass { pass_type: 0, work_groups: 64 },
        ]
    );
    assert_eq!(work_groups(0), 64);
    assert_eq!(work_groups(3), 512);
    assert_eq!(work_groups(7), 512);
}

#[test]
fn uniform_names_with_nul_are_not_valid() {
    assert!(is_valid_uniform_name("pass_type"));
    assert!(is_valid_uniform_name(""));
    assert!(!is_valid_uniform_name("pass\0type"));
    assert!(!is_valid_uniform_name("\0"));
}
