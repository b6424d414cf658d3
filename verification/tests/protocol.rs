use orchestration::protocol::format_step_number;
use orchestration::protocol::invocation_command;
use orchestration::protocol::is_jar_path;
use orchestration::protocol::split_output_lines;

#[test]
fn jar_paths_are_detected_by_extension() {
    assert!(is_jar_path("/mods/analyzer.jar"));
    assert!(is_jar_path("a.jar"));
    assert!(is_jar_path("/mods/a.b.jar"));
    assert!(!is_jar_path("/mods/analyzer"));
    assert!(!is_jar_path("/mods/analyzer.JAR"));
    assert!(!is_jar_path("/mods/.jar"));
    assert!(!is_jar_path("jar"));
    assert!(!is_jar_path(".jar"));
}

#[test]
fn step_numbers_render_in_decimal() {
    assert_eq!(format_step_number(0), "0");
    assert_eq!(format_step_number(7), "7");
    assert_eq!(format_step_number(42), "42");
    assert_eq!(format_step_number(1000), "1000");
    assert_eq!(format_step_number(i32::MAX), "2147483647");
    assert_eq!(format_step_number(-17), "-17");
    assert_eq!(format_step_number(i32::MIN), "-2147483648");
}

#[test]
fn archive_commands_run_through_the_launcher() {
    let cmd = invocation_command("/mods/analyzer.jar", "/run", 3);
    assert_eq!(cmd.program, "java");
    assert_eq!(
        cmd.arguments,
        vec!["-jar", "/mods/analyzer.jar", "--no-integration", "/run", "3"]
    );
}

#[test]
fn plain_commands_run_directly() {
    let cmd = invocation_command("/mods/analyzer", "/run", 0);
    assert_eq!(cmd.program, "/mods/analyzer");
    assert_eq!(cmd.arguments, vec!["--no-integration", "/run", "0"]);
}

#[test]
fn output_splits_into_lines() {
    assert_eq!(split_output_lines(""), Vec::<String>::new());
    assert_eq!(split_output_lines("one"), vec!["one"]);
    assert_eq!(split_output_lines("a\nb\n"), vec!["a", "b"]);
    assert_eq!(split_output_lines("a\r\nb"), vec!["a", "b"]);
    assert_eq!(split_output_lines("a\n\nb"), vec!["a", "", "b"]);
    assert_eq!(
        split_output_lines("/run/identified/msgpack/header_0.msgpack\n"),
        vec!["/run/identified/msgpack/header_0.msgpack"]
    );
}
