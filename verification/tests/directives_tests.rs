use cpython_rust_modules::directives::{build_directives, BuildEnv, BuildError};

fn env() -> BuildEnv {
    BuildEnv {
        target_os: String::new(),
        rust_shared_build: String::new(),
        bldshared_exe: None,
        bldshared_args: None,
        libpython: None,
        py_cc: None,
        python_build_dir: None,
    }
}

fn rerun() -> Vec<String> {
    [
        "RUST_SHARED_BUILD",
        "BLDSHARED_EXE",
        "BLDSHARED_ARGS",
        "LIBPYTHON",
        "PY_CC",
        "PYTHON_BUILD_DIR",
        "CARGO_CFG_TARGET_OS",
    ]
    .iter()
    .map(|v| format!("cargo:rerun-if-env-changed={v}"))
    .collect()
}

fn arg(a: &str) -> String {
    format!("cargo:rustc-cdylib-link-arg={a}")
}

#[test]
fn linux_without_settings() {
    let mut e = env();
    e.target_os = "linux".to_string();
    assert_eq!(build_directives(&e), Ok(rerun()));
}

#[test]
fn macos_adds_dynamic_lookup() {
    let mut e = env();
    e.target_os = "macos".to_string();
    let mut want = rerun();
    want.push(arg("-undefined"));
    want.push(arg("dynamic_lookup"));
    assert_eq!(build_directives(&e), Ok(want));
}

#[test]
fn ios_is_a_shared_build() {
    let mut e = env();
    e.target_os = "ios".to_string();
    e.bldshared_exe = Some("xcrun --sdk iphoneos clang -F . -framework Python".to_string());
    e.py_cc = Some("xcrun --sdk iphoneos clang -O2".to_string());
    e.python_build_dir = Some("/build".to_string());
    let mut want = rerun();
    for a in ["-undefined", "dynamic_lookup", "-F", "/build", "-framework", "Python"] {
        want.push(arg(a));
    }
    assert_eq!(build_directives(&e), Ok(want));
    // a compiler command that the setting does not start with: only the first word goes
    e.py_cc = Some("clang".to_string());
    let mut want = rerun();
    for a in ["-undefined", "dynamic_lookup", "--sdk", "iphoneos", "clang", "-F", "/build", "-framework", "Python"] {
        want.push(arg(a));
    }
    assert_eq!(build_directives(&e), Ok(want));
}

#[test]
fn exe_ignored_unless_shared() {
    let mut e = env();
    e.target_os = "linux".to_string();
    e.bldshared_exe = Some("gcc -shared".to_string());
    assert_eq!(build_directives(&e), Ok(rerun()));
    e.rust_shared_build = "1".to_string();
    let mut want = rerun();
    want.push(arg("-shared"));
    assert_eq!(build_directives(&e), Ok(want));
}

#[test]
fn bldshared_args_are_filtered() {
    let mut e = env();
    e.bldshared_args = Some("-bundle -lm".to_string());
    let mut want = rerun();
    want.push(arg("-lm"));
    assert_eq!(build_directives(&e), Ok(want));
}

#[test]
fn libpython_resolves_build_dir() {
    let mut e = env();
    e.libpython = Some("-L. -lpython3.15".to_string());
    e.python_build_dir = Some("/src/build".to_string());
    let mut want = rerun();
    want.push(arg("-L/src/build"));
    want.push(arg("-lpython3.15"));
    assert_eq!(build_directives(&e), Ok(want));
    e.python_build_dir = None;
    let mut want = rerun();
    want.push(arg("-L."));
    want.push(arg("-lpython3.15"));
    assert_eq!(build_directives(&e), Ok(want));
}

#[test]
fn order_of_sections() {
    let mut e = env();
    e.target_os = "macos".to_string();
    e.rust_shared_build = "1".to_string();
    e.bldshared_exe = Some("cc -la".to_string());
    e.bldshared_args = Some("-lb".to_string());
    e.libpython = Some("-lc".to_string());
    let mut want = rerun();
    for a in ["-undefined", "dynamic_lookup", "-la", "-lb", "-lc"] {
        want.push(arg(a));
    }
    assert_eq!(build_directives(&e), Ok(want));
}

#[test]
fn invalid_linker_args() {
    let mut e = env();
    e.bldshared_args = Some("'oops".to_string());
    e.libpython = Some("'also bad".to_string());
    assert_eq!(build_directives(&e), Err(BuildError::InvalidLinkerArgs));
    let mut e = env();
    e.rust_shared_build = "1".to_string();
    e.bldshared_exe = Some("cc \"open".to_string());
    assert_eq!(build_directives(&e), Err(BuildError::InvalidLinkerArgs));
}

#[test]
fn invalid_libpython() {
    let mut e = env();
    e.libpython = Some("-L. 'x".to_string());
    assert_eq!(build_directives(&e), Err(BuildError::InvalidLibpython));
}
