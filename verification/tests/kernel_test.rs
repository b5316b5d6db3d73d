use kernel_info::kernel::{full_info_line, release_line};

#[test]
fn release_line_trims_the_output() {
    assert_eq!(release_line("23.1.0\n"), "Kernel Release: 23.1.0");
    assert_eq!(release_line("  6.8.0-45-generic \r\n"), "Kernel Release: 6.8.0-45-generic");
}

#[test]
fn release_line_of_empty_output() {
    assert_eq!(release_line(""), "Kernel Release: ");
    assert_eq!(release_line("\n"), "Kernel Release: ");
}

#[test]
fn full_info_line_keeps_inner_whitespace() {
    assert_eq!(
        full_info_line("Darwin host 23.1.0 Darwin Kernel Version 23.1.0:  root  arm64\n"),
        "Full Info: Darwin host 23.1.0 Darwin Kernel Version 23.1.0:  root  arm64"
    );
    assert_eq!(full_info_line(" \t"), "Full Info: ");
}
