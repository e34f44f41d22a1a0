//! Finding the driver and the toolkit.
use cutile::driver::{
    build_debug_info, cuda_driver_load_error, cuda_lib_names, curand_lib_names, header_version,
    is_cuda_driver_available, too_old_text, toolkit_warning, verify_version, DynLoadError, Search,
    TargetOs,
};

#[test]
fn candidates_are_tried_in_order() {
    let mut s = Search::new(curand_lib_names(TargetOs::Linux));
    assert_eq!(s.candidate(), Some(0));
    s.failed("first".to_owned());
    assert_eq!(s.candidate(), Some(1));
    s.failed("second".to_owned());
    assert_eq!(s.candidate(), None);
    match s.give_up() {
        DynLoadError::LoadFailed { names, source } => {
            assert_eq!(names, vec!["libcurand.so.10", "libcurand.so"]);
            assert_eq!(source, "second");
        }
        _ => panic!("the search failed"),
    }
}

#[test]
fn each_system_has_its_candidates() {
    assert_eq!(
        cuda_lib_names(TargetOs::Linux),
        vec![
            "libcuda.so.1",
            "/usr/lib/wsl/lib/libcuda.so.1",
            "libcuda.so",
            "/usr/lib/wsl/lib/libcuda.so",
            "/usr/lib/x86_64-linux-gnu/libcuda.so.1",
        ]
    );
    assert_eq!(cuda_lib_names(TargetOs::MacOs), vec!["libcuda.dylib"]);
    assert_eq!(cuda_lib_names(TargetOs::Windows), vec!["nvcuda.dll"]);
    assert_eq!(cuda_lib_names(TargetOs::Other), vec!["libcuda.so"]);
    assert_eq!(curand_lib_names(TargetOs::Linux), vec!["libcurand.so.10", "libcurand.so"]);
    assert_eq!(curand_lib_names(TargetOs::MacOs), vec!["libcurand.dylib"]);
    assert_eq!(curand_lib_names(TargetOs::Windows), vec!["curand64_10.dll"]);
    assert_eq!(curand_lib_names(TargetOs::Other), vec!["libcurand.so"]);
}

#[test]
fn only_an_older_major_version_is_refused() {
    assert!(verify_version(13020, Some(13000)).is_ok());
    assert!(verify_version(13020, Some(14000)).is_ok());
    assert!(verify_version(13020, None).is_ok());
    let r: Result<(), DynLoadError> = verify_version(13020, Some(12090));
    assert!(!is_cuda_driver_available(&r));
    match cuda_driver_load_error(&r) {
        Some(DynLoadError::RuntimeTooOld { compile_version, runtime_version }) => {
            assert_eq!(
                too_old_text(*compile_version, *runtime_version),
                "CUDA driver too old: built against 13.2 but runtime is 12.9"
            );
        }
        _ => panic!("the driver is too old"),
    }
}

#[test]
fn the_header_defines_the_version() {
    let h = "/* x */\n#ifndef A\n  #define   CUDA_VERSION\t13010 \n#define CUDA_VERSION 1\n";
    assert_eq!(header_version(h), Some(13010));
    assert_eq!(header_version("#define CUDA_VERSION_X 13010"), None);
    assert_eq!(header_version(""), None);
    let w = toolkit_warning("/opt/cuda", Some(13010)).unwrap();
    assert!(w.contains("/opt/cuda is CUDA 13.1;"));
    assert_eq!(toolkit_warning("/opt/cuda", Some(13020)), None);
    assert_eq!(toolkit_warning("/opt/cuda", None), None);
}

#[test]
fn the_debug_level_follows_setting_and_profile() {
    assert_eq!(build_debug_info(Some("line"), Some("true")), Some("line".to_owned()));
    assert_eq!(build_debug_info(Some("all"), Some("true")), None);
    assert_eq!(build_debug_info(None, Some("true")), Some("full".to_owned()));
    assert_eq!(build_debug_info(None, Some("false")), Some("none".to_owned()));
    assert_eq!(build_debug_info(None, None), None);
}
