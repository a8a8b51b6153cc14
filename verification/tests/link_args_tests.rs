use cpython_rust_modules::link_args::{
    command_prefix_of_tokens, compiler_command_prefix, filter_link_args, link_args, strip_command_prefix,
    strip_linker_executable,
};

fn v(words: &[&str]) -> Vec<String> {
    words.iter().map(|w| w.to_string()).collect()
}

#[test]
fn command_prefix_of_wrapper_and_compiler() {
    assert_eq!(compiler_command_prefix("xcrun --sdk iphoneos clang"), Some(v(&["xcrun", "--sdk", "iphoneos", "clang"])));
    assert_eq!(compiler_command_prefix("ccache clang -O2 -g"), Some(v(&["ccache", "clang"])));
    assert_eq!(compiler_command_prefix("gcc"), Some(v(&["gcc"])));
    assert_eq!(
        compiler_command_prefix("clang -arch arm64"),
        Some(v(&["clang", "-arch", "arm64"]))
    );
}

#[test]
fn command_prefix_none_cases() {
    assert_eq!(compiler_command_prefix("-O2 -g"), None);
    assert_eq!(compiler_command_prefix(""), None);
    assert_eq!(compiler_command_prefix("clang 'unterminated"), None);
}

#[test]
fn command_prefix_of_given_tokens() {
    assert_eq!(command_prefix_of_tokens(v(&["a", "-b", "c", "-d", "-e"])), Some(v(&["a", "-b", "c"])));
    assert_eq!(command_prefix_of_tokens(v(&["-x"])), None);
    assert_eq!(command_prefix_of_tokens(v(&[])), None);
}

#[test]
fn strip_with_matching_compiler() {
    let args = v(&["xcrun", "--sdk", "iphoneos", "clang", "-F", ".", "-framework", "Python"]);
    assert_eq!(
        strip_linker_executable(args, Some("xcrun --sdk iphoneos clang")),
        v(&["-F", ".", "-framework", "Python"])
    );
}

#[test]
fn strip_falls_back_to_first_word() {
    assert_eq!(strip_linker_executable(v(&["cc", "-shared"]), Some("clang")), v(&["-shared"]));
    assert_eq!(strip_linker_executable(v(&["cc", "-shared"]), None), v(&["-shared"]));
    assert_eq!(strip_linker_executable(v(&["cc", "-shared"]), Some("-O2")), v(&["-shared"]));
    assert_eq!(strip_linker_executable(v(&[]), Some("cc")), v(&[]));
    assert_eq!(strip_linker_executable(v(&["ccache"]), Some("ccache clang")), v(&[]));
}

#[test]
fn strip_with_given_prefix() {
    assert_eq!(strip_command_prefix(v(&["a", "b", "c"]), Some(v(&["a", "b"]))), v(&["c"]));
    assert_eq!(strip_command_prefix(v(&["a", "b", "c"]), Some(v(&["a", "x"]))), v(&["b", "c"]));
    assert_eq!(strip_command_prefix(v(&["a", "b"]), Some(v(&["a", "b"]))), v(&[]));
    assert_eq!(strip_command_prefix(v(&["a"]), Some(v(&["a", "b"]))), v(&[]));
    assert_eq!(strip_command_prefix(v(&["a", "b"]), None), v(&["b"]));
}

#[test]
fn filter_drops_bundle_flags() {
    let args = v(&["-bundle", "-bundle_loader", "python.exe", "-dynamiclib", "-lm"]);
    assert_eq!(filter_link_args(&args, None), v(&["-lm"]));
}

#[test]
fn filter_drops_dynamic_lookup_pair_only() {
    assert_eq!(filter_link_args(&v(&["-undefined", "dynamic_lookup", "-lz"]), None), v(&["-lz"]));
    assert_eq!(filter_link_args(&v(&["-undefined", "error"]), None), v(&["-undefined", "error"]));
    assert_eq!(filter_link_args(&v(&["-undefined"]), None), v(&["-undefined"]));
}

#[test]
fn filter_resolves_framework_dir() {
    assert_eq!(filter_link_args(&v(&["-F", ".", "-framework", "Python"]), Some("/build")), v(&[
        "-F", "/build", "-framework", "Python"
    ]));
    assert_eq!(filter_link_args(&v(&["-F", "."]), None), v(&["-F", "."]));
    assert_eq!(filter_link_args(&v(&["-F", "/opt"]), Some("/build")), v(&["-F", "/opt"]));
    assert_eq!(filter_link_args(&v(&["-F"]), Some("/build")), v(&["-F"]));
    assert_eq!(filter_link_args(&v(&["-F", "-bundle"]), None), v(&["-F", "-bundle"]));
}

#[test]
fn filter_bundle_loader_at_end() {
    assert_eq!(filter_link_args(&v(&["-lm", "-bundle_loader"]), None), v(&["-lm"]));
}

#[test]
fn filter_keeps_plain_words() {
    let args = v(&["-L/usr/lib", "-lpython3.15", "-Wl,-rpath,/x"]);
    assert_eq!(filter_link_args(&args, Some("/b")), args);
}

#[test]
fn link_args_split_strip_and_filter() {
    assert_eq!(
        link_args("clang -bundle -undefined dynamic_lookup -F . -lm", true, Some("clang"), Some("/b")),
        Some(v(&["-F", "/b", "-lm"]))
    );
    assert_eq!(link_args("-L'/a b' -lm", false, None, None), Some(v(&["-L/a b", "-lm"])));
    assert_eq!(link_args("\"unterminated", false, None, None), None);
    assert_eq!(link_args("", true, None, None), Some(v(&[])));
}
