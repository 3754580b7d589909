//! The driver's decisions.

use hipfire::hip::{
    c_text, check, copy_fits, find_arch, fits, get_arch, library_names, runtime_version,
};

#[test]
fn codes_are_checked() {
    assert!(check(0, "hipMalloc").is_ok());
    let e = check(2, "hipMalloc").unwrap_err();
    assert_eq!((e.code, e.message.as_str()), (2, "hipMalloc"));
}

#[test]
fn versions_are_taken_apart() {
    assert_eq!(runtime_version(60_342_133), (6, 3));
    assert_eq!(runtime_version(0), (0, 0));
    assert_eq!(runtime_version(-60_342_133), (-6, -3));
    assert_eq!(runtime_version(i32::MIN), (i32::MIN / 10_000_000, (i32::MIN % 10_000_000) / 100_000));
}

#[test]
fn ranges_do_not_wrap() {
    assert!(fits(8, 4, 4));
    assert!(!fits(8, 5, 4));
    assert!(!fits(8, usize::MAX, 2));
    assert!(copy_fits(8, 0, 8, 0, 8));
    assert!(!copy_fits(8, 0, 8, 1, 8));
    assert!(!copy_fits(8, usize::MAX, 8, 0, 1));
}

#[test]
fn texts_for_the_runtime_have_no_end_mark() {
    assert!(c_text("kernel.hsaco", "bad").is_ok());
    let e = c_text("a\0b", "invalid path for module_load").unwrap_err();
    assert_eq!((e.code, e.message.as_str()), (1, "invalid path for module_load"));
}

#[test]
fn architectures_are_found_anywhere() {
    let mut props = vec![0xffu8; 300];
    props.extend_from_slice(b"gfx1100:sramecc-:xnack-\0rest gfx900");
    props.resize(1024, 0);
    assert_eq!(get_arch(&props), "gfx1100");
    assert_eq!(get_arch(b"gfx1030"), "gfx1030");
    assert_eq!(get_arch(b"name gfx90a tail"), "gfx90a");
    assert_eq!(get_arch(&[0u8; 1024]), "unknown");
    assert_eq!(get_arch(b""), "unknown");
    assert_eq!(find_arch("gf gfx"), Some("gfx".to_string()));
    assert_eq!(find_arch("gf"), None);
}

#[test]
fn the_runtime_is_looked_for_in_order() {
    assert_eq!(library_names(false, "u", "s"), vec!["libamdhip64.so"]);
    let w = library_names(true, "C:\\me", "D:\\hip");
    assert_eq!(w.len(), 9);
    assert_eq!(w[0], "C:\\me\\.hipfire\\runtime\\amdhip64.dll");
    assert_eq!(w[1], "D:\\hip\\bin\\amdhip64.dll");
    assert_eq!(w[2], "amdhip64.dll");
    assert_eq!(w[8], "D:\\hip\\bin\\amdhip64_6.dll");
}
