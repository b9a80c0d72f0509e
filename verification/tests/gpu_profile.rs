use launchpad::renderer::gpu_profile::{trace_file_name, trace_path};

#[test]
fn trace_sits_beside_the_report_with_its_stem() {
    assert_eq!(trace_path("out/profile.json"), "out/profile.trace.json");
    assert_eq!(trace_path("/tmp/run-3.report.json"), "/tmp/run-3.report.trace.json");
}

#[test]
fn report_without_extension_keeps_its_whole_name_as_stem() {
    assert_eq!(trace_path("report"), "report.trace.json");
}

#[test]
fn report_path_without_file_name_uses_the_default_stem() {
    assert_eq!(trace_path(".."), "../gpu-profile.trace.json");
}

#[test]
fn trace_file_name_appends_the_suffix() {
    assert_eq!(trace_file_name(Some("frame")), "frame.trace.json");
    assert_eq!(trace_file_name(None), "gpu-profile.trace.json");
    assert_eq!(trace_file_name(Some("")), ".trace.json");
}
