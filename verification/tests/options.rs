//! The driver-facing helpers: linker names and output-path selection.

use foolang::options::{get_output_path, Linker};

#[test]
fn linker_names() {
    assert_eq!(Linker::Clang.to_string(), "clang");
    assert_eq!(Linker::Gcc.to_string(), "gcc");
    assert_eq!(Linker::Link.to_string(), "link");
    assert_eq!(Linker::Ld.to_string(), "ld");
    assert_eq!(Linker::Lld.to_string(), "lld");
}

#[test]
fn output_path_defaults_when_none_given() {
    assert_eq!(get_output_path(None, false, false, "foo.o"), Ok("foo.o".to_string()));
}

#[test]
fn output_path_accepts_fresh_path() {
    let p = "out/prog".to_string();
    assert_eq!(get_output_path(Some(p.clone()), false, false, "foo"), Ok(p));
}

#[test]
fn output_path_accepts_existing_file() {
    let p = "prog".to_string();
    assert_eq!(get_output_path(Some(p.clone()), true, true, "foo"), Ok(p));
}

#[test]
fn output_path_rejects_existing_non_file() {
    let p = "some_dir".to_string();
    assert_eq!(get_output_path(Some(p.clone()), true, false, "foo"), Err(p));
}
