//! The Cargo directives a CPython extension module's build prints: which
//! environment settings it depends on, and the link arguments it derives from
//! the CPython build configuration.

use vstd::prelude::*;
use vstd::string::*;
use crate::link_args::{kept_link_args, link_args, link_args_of, opt_compiler_prefix, strip_command};
use crate::shell::{opt_text, same_text, shell_split, shell_words, text_to_string, words};

verus! {

/// The build settings the directives depend on, as read from the environment.
/// A setting that is unset (or not valid Unicode) reads as the empty string
/// for `target_os` and `rust_shared_build`, and as `None` for the others.
pub struct BuildEnv {
    /// `CARGO_CFG_TARGET_OS`.
    pub target_os: String,
    /// `RUST_SHARED_BUILD`.
    pub rust_shared_build: String,
    /// `BLDSHARED_EXE`: the compiler-and-linker command of a shared build.
    pub bldshared_exe: Option<String>,
    /// `BLDSHARED_ARGS`: platform-specific shared link arguments.
    pub bldshared_args: Option<String>,
    /// `LIBPYTHON`: how to link against libpython.
    pub libpython: Option<String>,
    /// `PY_CC`: the C compiler command.
    pub py_cc: Option<String>,
    /// `PYTHON_BUILD_DIR`: the CPython build directory.
    pub python_build_dir: Option<String>,
}

/// A setting that cannot be split into words as a shell would.
#[derive(Debug, Clone, Copy, PartialEq, Eq)]
pub enum BuildError {
    /// `BLDSHARED_EXE` or `BLDSHARED_ARGS` cannot be split.
    InvalidLinkerArgs,
    /// `LIBPYTHON` cannot be split.
    InvalidLibpython,
}

/// The text of an optional `String`.
pub open spec fn opt_string(o: Option<String>) -> Option<Seq<char>> {
    match o {
        Some(s) => Some(s@),
        None => None,
    }
}

/// The texts of a result that holds lines.
pub open spec fn result_words(r: Result<Vec<String>, BuildError>) -> Result<Seq<Seq<char>>, BuildError> {
    match r {
        Ok(v) => Ok(words(v@)),
        Err(e) => Err(e),
    }
}

/// The directive that passes `a` to the linker of the `cdylib`.
pub open spec fn link_arg_line(a: Seq<char>) -> Seq<char> {
    "cargo:rustc-cdylib-link-arg="@ + a
}

/// One link-argument directive per word, in order.
pub open spec fn link_arg_lines(s: Seq<Seq<char>>) -> Seq<Seq<char>> {
    s.map_values(|a: Seq<char>| link_arg_line(a))
}

/// The directives that rerun the build when a setting it reads changes.
pub open spec fn rerun_lines() -> Seq<Seq<char>> {
    seq![
        "cargo:rerun-if-env-changed=RUST_SHARED_BUILD"@,
        "cargo:rerun-if-env-changed=BLDSHARED_EXE"@,
        "cargo:rerun-if-env-changed=BLDSHARED_ARGS"@,
        "cargo:rerun-if-env-changed=LIBPYTHON"@,
        "cargo:rerun-if-env-changed=PY_CC"@,
        "cargo:rerun-if-env-changed=PYTHON_BUILD_DIR"@,
        "cargo:rerun-if-env-changed=CARGO_CFG_TARGET_OS"@,
    ]
}

/// An Apple target, where a `cdylib` needs symbols resolved at load time.
pub open spec fn is_apple(os: Seq<char>) -> bool {
    os == "macos"@ || os == "ios"@
}

/// A shared build: requested by `RUST_SHARED_BUILD=1`, and always on iOS.
pub open spec fn is_shared_build(env: BuildEnv) -> bool {
    env.rust_shared_build@ == "1"@ || env.target_os@ == "ios"@
}

/// The directives for the linker setting `raw` when `enabled` holds and it is
/// set; an error when it cannot be split.
pub open spec fn setting_lines(
    raw: Option<Seq<char>>,
    enabled: bool,
    skip_first: bool,
    compiler: Option<Seq<char>>,
    build_dir: Option<Seq<char>>,
) -> Result<Seq<Seq<char>>, BuildError> {
    if enabled && raw is Some {
        match link_args_of(raw->0, skip_first, compiler, build_dir) {
            Some(a) => Ok(link_arg_lines(a)),
            None => Err(BuildError::InvalidLinkerArgs),
        }
    } else {
        Ok(seq![])
    }
}

/// A word of `LIBPYTHON`: `-L.` names the build directory when one is known.
pub open spec fn libpython_arg(w: Seq<char>, build_dir: Option<Seq<char>>) -> Seq<char> {
    if w == "-L."@ && build_dir is Some {
        "-L"@ + build_dir->0
    } else {
        w
    }
}

/// The directives for `LIBPYTHON`, word by word; an error when it cannot be
/// split.
pub open spec fn libpython_lines(lib: Option<Seq<char>>, build_dir: Option<Seq<char>>) -> Result<
    Seq<Seq<char>>,
    BuildError,
> {
    match lib {
        None => Ok(seq![]),
        Some(l) => match shell_split(l) {
            None => Err(BuildError::InvalidLibpython),
            Some(t) => Ok(link_arg_lines(t.map_values(|w: Seq<char>| libpython_arg(w, build_dir)))),
        },
    }
}

/// The directives that always come first: the rerun directives, then, on
/// Apple targets, `-undefined dynamic_lookup`.
pub open spec fn head_lines(env: BuildEnv) -> Seq<Seq<char>> {
    rerun_lines() + if is_apple(env.target_os@) {
        link_arg_lines(seq!["-undefined"@, "dynamic_lookup"@])
    } else {
        seq![]
    }
}

/// All directives for `env`, in the order they are printed: the head lines,
/// then those of `BLDSHARED_EXE` (shared builds only, with its linker command
/// stripped), of `BLDSHARED_ARGS` and of `LIBPYTHON`. The first setting
/// that cannot be split, in that order, gives the error.
pub open spec fn linker_directives(env: BuildEnv) -> Result<Seq<Seq<char>>, BuildError> {
    let dir = opt_string(env.python_build_dir);
    let exe = setting_lines(opt_string(env.bldshared_exe), is_shared_build(env), true, opt_string(env.py_cc), dir);
    let args = setting_lines(opt_string(env.bldshared_args), true, false, opt_string(env.py_cc), dir);
    let lib = libpython_lines(opt_string(env.libpython), dir);
    match exe {
        Err(e) => Err(e),
        Ok(x) => match args {
            Err(e) => Err(e),
            Ok(y) => match lib {
                Err(e) => Err(e),
                Ok(z) => Ok(head_lines(env) + x + y + z),
            },
        },
    }
}

fn link_arg_line_text(a: &str) -> (res: String)
    ensures
        res@ == link_arg_line(a@),
{
    String::from_str("cargo:rustc-cdylib-link-arg=").concat(a)
}

fn push_link_arg_lines(out: &mut Vec<String>, args: &Vec<String>)
    ensures
        words(final(out)@) == words(old(out)@) + link_arg_lines(words(args@)),
{
    let ghost start = words(out@);
    let mut i: usize = 0;
    while i < args.len()
        invariant
            i <= args@.len(),
            words(out@) == start + link_arg_lines(words(args@)).take(i as int),
        decreases args@.len() - i,
    {
        let ghost prev = words(out@);
        let line = link_arg_line_text(args[i].as_str());
        out.push(line);
        assert(words(out@) =~= prev.push(line@));
        assert(link_arg_lines(words(args@)).take(i + 1) =~= link_arg_lines(words(args@)).take(i as int)
            + seq![link_arg_line(args@[i as int]@)]);
        assert(words(out@) =~= start + link_arg_lines(words(args@)).take(i + 1));
        i = i + 1;
    }
    assert(link_arg_lines(words(args@)).take(args@.len() as int) =~= link_arg_lines(words(args@)));
}

fn opt_as_str(o: &Option<String>) -> (res: Option<&str>)
    ensures
        opt_text(res) == opt_string(*o),
{
    match o {
        Some(s) => Some(s.as_str()),
        None => None,
    }
}

/// All Cargo directives for the build settings `env` (see
/// `linker_directives`): `Err` names the first setting that cannot be split.
pub fn build_directives(env: &BuildEnv) -> (res: Result<Vec<String>, BuildError>)
    ensures
        result_words(res) == linker_directives(*env),
{
    let ghost start: Seq<Seq<char>> = seq![];
    let mut out: Vec<String> = Vec::new();
    out.push(text_to_string("cargo:rerun-if-env-changed=RUST_SHARED_BUILD"));
    out.push(text_to_string("cargo:rerun-if-env-changed=BLDSHARED_EXE"));
    out.push(text_to_string("cargo:rerun-if-env-changed=BLDSHARED_ARGS"));
    out.push(text_to_string("cargo:rerun-if-env-changed=LIBPYTHON"));
    out.push(text_to_string("cargo:rerun-if-env-changed=PY_CC"));
    out.push(text_to_string("cargo:rerun-if-env-changed=PYTHON_BUILD_DIR"));
    out.push(text_to_string("cargo:rerun-if-env-changed=CARGO_CFG_TARGET_OS"));
    assert(words(out@) =~= rerun_lines());

    let os = env.target_os.as_str();
    let apple = same_text(os, "macos") || same_text(os, "ios");
    if apple {
        out.push(link_arg_line_text("-undefined"));
        out.push(link_arg_line_text("dynamic_lookup"));
    }
    assert(words(out@) =~= head_lines(*env));
    let ghost head = words(out@);
    let ghost dirv = opt_string(env.python_build_dir);

    let dir = opt_as_str(&env.python_build_dir);
    let cc = opt_as_str(&env.py_cc);
    let shared = same_text(env.rust_shared_build.as_str(), "1") || same_text(os, "ios");

    let ghost mut x: Seq<Seq<char>> = seq![];
    if shared {
        if let Some(exe) = &env.bldshared_exe {
            match link_args(exe.as_str(), true, cc, dir) {
                None => return Err(BuildError::InvalidLinkerArgs),
                Some(a) => {
                    push_link_arg_lines(&mut out, &a);
                    proof {
                        x = link_arg_lines(words(a@));
                    }
                },
            }
        }
    }
    assert(words(out@) =~= head + x);
    assert(setting_lines(opt_string(env.bldshared_exe), is_shared_build(*env), true, opt_string(env.py_cc), dirv)
        == Ok::<Seq<Seq<char>>, BuildError>(x));

    let ghost mut y: Seq<Seq<char>> = seq![];
    if let Some(args) = &env.bldshared_args {
        match link_args(args.as_str(), false, cc, dir) {
            None => return Err(BuildError::InvalidLinkerArgs),
            Some(a) => {
                push_link_arg_lines(&mut out, &a);
                proof {
                    y = link_arg_lines(words(a@));
                }
            },
        }
    }
    assert(words(out@) =~= head + x + y);
    assert(setting_lines(opt_string(env.bldshared_args), true, false, opt_string(env.py_cc), dirv)
        == Ok::<Seq<Seq<char>>, BuildError>(y));
    let ghost after_args = words(out@);

    let ghost mut z: Seq<Seq<char>> = seq![];
    if let Some(lib) = &env.libpython {
        match shell_words(lib.as_str()) {
            None => return Err(BuildError::InvalidLibpython),
            Some(tokens) => {
                let ghost t = words(tokens@);
                let ghost mapped = t.map_values(|w: Seq<char>| libpython_arg(w, dirv));
                let mut i: usize = 0;
                while i < tokens.len()
                    invariant
                        i <= tokens@.len(),
                        t == words(tokens@),
                        dirv == opt_text(dir),
                        mapped == t.map_values(|w: Seq<char>| libpython_arg(w, dirv)),
                        words(out@) == after_args + link_arg_lines(mapped).take(i as int),
                    decreases tokens@.len() - i,
                {
                    let w = tokens[i].as_str();
                    assert(t[i as int] == w@);
                    let ghost prev = words(out@);
                    let line = if same_text(w, "-L.") && dir.is_some() {
                        let d = match dir {
                            Some(d) => d,
                            None => w,
                        };
                        link_arg_line_text(String::from_str("-L").concat(d).as_str())
                    } else {
                        link_arg_line_text(w)
                    };
                    assert(line@ == link_arg_line(mapped[i as int]));
                    out.push(line);
                    assert(words(out@) =~= prev.push(line@));
                    assert(link_arg_lines(mapped).take(i + 1) =~= link_arg_lines(mapped).take(i as int)
                        + seq![link_arg_line(mapped[i as int])]);
                    assert(words(out@) =~= after_args + link_arg_lines(mapped).take(i + 1));
                    i = i + 1;
                }
                assert(link_arg_lines(mapped).take(tokens@.len() as int) =~= link_arg_lines(mapped));
                proof {
                    z = link_arg_lines(mapped);
                }
            },
        }
    }
    assert(words(out@) =~= head + x + y + z);
    assert(libpython_lines(opt_string(env.libpython), dirv) == Ok::<Seq<Seq<char>>, BuildError>(z));
    Ok(out)
}

/// A setting that is unset, or that splits into words as a shell would.
pub open spec fn splits(o: Option<Seq<char>>) -> bool {
    o is None || shell_split(o->0) is Some
}

/// A directive that passes one argument to the linker.
pub open spec fn is_link_arg_line(l: Seq<char>) -> bool {
    exists|a: Seq<char>| l == link_arg_line(a)
}

proof fn lemma_link_arg_lines(s: Seq<Seq<char>>)
    ensures
        forall|k: int| 0 <= k < link_arg_lines(s).len() ==> is_link_arg_line(#[trigger] link_arg_lines(s)[k]),
{
    assert forall|k: int| 0 <= k < link_arg_lines(s).len() implies is_link_arg_line(#[trigger] link_arg_lines(s)[k]) by {
        assert(link_arg_lines(s)[k] == link_arg_line(s[k]));
    }
}

/// The directives are produced exactly when every setting in use splits into
/// words (`BLDSHARED_EXE` is in use only for shared builds). They start with
/// the seven rerun directives, followed on Apple targets by
/// `-undefined dynamic_lookup`; every directive after the rerun ones passes
/// one argument to the linker.
pub proof fn lemma_directives_shape(env: BuildEnv)
    ensures
        linker_directives(env) is Ok <==> {
            &&& is_shared_build(env) ==> splits(opt_string(env.bldshared_exe))
            &&& splits(opt_string(env.bldshared_args))
            &&& splits(opt_string(env.libpython))
        },
        linker_directives(env) matches Ok(lines) ==> {
            &&& lines.len() >= 7
            &&& lines.take(7) == rerun_lines()
            &&& forall|k: int| 7 <= k < lines.len() ==> is_link_arg_line(#[trigger] lines[k])
            &&& is_apple(env.target_os@) ==> lines[7] == link_arg_line("-undefined"@) && lines[8] == link_arg_line(
                "dynamic_lookup"@,
            )
        },
{
    let dir = opt_string(env.python_build_dir);
    let exe = setting_lines(opt_string(env.bldshared_exe), is_shared_build(env), true, opt_string(env.py_cc), dir);
    let args = setting_lines(opt_string(env.bldshared_args), true, false, opt_string(env.py_cc), dir);
    let lib = libpython_lines(opt_string(env.libpython), dir);
    if let Ok(lines) = linker_directives(env) {
        let x = exe->Ok_0;
        let y = args->Ok_0;
        let z = lib->Ok_0;
        let head = head_lines(env);
        let apple_lines = if is_apple(env.target_os@) {
            link_arg_lines(seq!["-undefined"@, "dynamic_lookup"@])
        } else {
            seq![]
        };
        assert(lines == head + x + y + z);
        assert(head == rerun_lines() + apple_lines);
        lemma_link_arg_lines(seq!["-undefined"@, "dynamic_lookup"@]);
        assert forall|k: int| 0 <= k < x.len() implies is_link_arg_line(#[trigger] x[k]) by {
            if let Some(a) = link_args_of(opt_string(env.bldshared_exe)->0, true, opt_string(env.py_cc), dir) {
                lemma_link_arg_lines(a);
            }
        }
        assert forall|k: int| 0 <= k < y.len() implies is_link_arg_line(#[trigger] y[k]) by {
            if let Some(a) = link_args_of(opt_string(env.bldshared_args)->0, false, opt_string(env.py_cc), dir) {
                lemma_link_arg_lines(a);
            }
        }
        assert forall|k: int| 0 <= k < z.len() implies is_link_arg_line(#[trigger] z[k]) by {
            if let Some(t) = shell_split(opt_string(env.libpython)->0) {
                lemma_link_arg_lines(t.map_values(|w: Seq<char>| libpython_arg(w, dir)));
            }
        }
        assert(lines.take(7) =~= rerun_lines());
        assert forall|k: int| 7 <= k < lines.len() implies is_link_arg_line(#[trigger] lines[k]) by {
            let n = apple_lines.len() as int;
            if k < 7 + n {
                assert(lines[k] == apple_lines[k - 7]);
            } else if k < 7 + n + x.len() {
                assert(lines[k] == x[k - 7 - n]);
            } else if k < 7 + n + x.len() + y.len() {
                assert(lines[k] == y[k - 7 - n - x.len()]);
            } else {
                assert(lines[k] == z[k - 7 - n - x.len() - y.len()]);
            }
        }
    }
}

/// A build is shared only when `RUST_SHARED_BUILD` is exactly `1` or the
/// target is iOS: otherwise `BLDSHARED_EXE` is not consulted, and the
/// directives are those of the same settings without it.
pub proof fn lemma_exe_only_for_shared_builds(env: BuildEnv, without_exe: BuildEnv)
    requires
        env.rust_shared_build@ != "1"@,
        env.target_os@ != "ios"@,
        without_exe.bldshared_exe is None,
        without_exe.target_os@ == env.target_os@,
        without_exe.rust_shared_build@ == env.rust_shared_build@,
        opt_string(without_exe.bldshared_args) == opt_string(env.bldshared_args),
        opt_string(without_exe.libpython) == opt_string(env.libpython),
        opt_string(without_exe.py_cc) == opt_string(env.py_cc),
        opt_string(without_exe.python_build_dir) == opt_string(env.python_build_dir),
    ensures
        linker_directives(env) == linker_directives(without_exe),
{
}

/// In a shared build (`RUST_SHARED_BUILD` exactly `1`, or an iOS target),
/// `BLDSHARED_EXE` is consulted first: when it is set and cannot be split,
/// that is the error.
pub proof fn lemma_exe_used_for_shared_builds(env: BuildEnv)
    requires
        env.rust_shared_build@ == "1"@ || env.target_os@ == "ios"@,
        env.bldshared_exe matches Some(e) && shell_split(e@) is None,
    ensures
        linker_directives(env) == Err::<Seq<Seq<char>>, BuildError>(BuildError::InvalidLinkerArgs),
{
}

/// With no linker setting at all, the directives are the seven rerun
/// directives, in this order, followed by `-undefined dynamic_lookup` exactly
/// on macOS and iOS.
pub proof fn lemma_directives_without_settings(env: BuildEnv)
    requires
        env.bldshared_exe is None,
        env.bldshared_args is None,
        env.libpython is None,
    ensures
        linker_directives(env) == Ok::<Seq<Seq<char>>, BuildError>(
            seq![
                "cargo:rerun-if-env-changed=RUST_SHARED_BUILD"@,
                "cargo:rerun-if-env-changed=BLDSHARED_EXE"@,
                "cargo:rerun-if-env-changed=BLDSHARED_ARGS"@,
                "cargo:rerun-if-env-changed=LIBPYTHON"@,
                "cargo:rerun-if-env-changed=PY_CC"@,
                "cargo:rerun-if-env-changed=PYTHON_BUILD_DIR"@,
                "cargo:rerun-if-env-changed=CARGO_CFG_TARGET_OS"@,
            ] + if env.target_os@ == "macos"@ || env.target_os@ == "ios"@ {
                seq![
                    "cargo:rustc-cdylib-link-arg="@ + "-undefined"@,
                    "cargo:rustc-cdylib-link-arg="@ + "dynamic_lookup"@,
                ]
            } else {
                seq![]
            },
        ),
{
    let e: Seq<Seq<char>> = seq![];
    let apple = link_arg_lines(seq!["-undefined"@, "dynamic_lookup"@]);
    assert(apple =~= seq![
        "cargo:rustc-cdylib-link-arg="@ + "-undefined"@,
        "cargo:rustc-cdylib-link-arg="@ + "dynamic_lookup"@,
    ]);
    assert(head_lines(env) + e + e + e =~= head_lines(env));
}

/// Each word of `LIBPYTHON` becomes one link-argument directive, in order:
/// the word `-L.` names the build directory when one is known, and every
/// other word is passed unchanged.
pub proof fn lemma_libpython_words(lib: Seq<char>, build_dir: Option<Seq<char>>)
    requires
        shell_split(lib) is Some,
    ensures
        libpython_lines(Some(lib), build_dir) matches Ok(lines) && {
            let t = shell_split(lib)->0;
            &&& lines.len() == t.len()
            &&& forall|k: int| #![trigger lines[k]] 0 <= k < t.len() && t[k] != "-L."@ ==> lines[k]
                == "cargo:rustc-cdylib-link-arg="@ + t[k]
            &&& forall|k: int| #![trigger lines[k]] 0 <= k < t.len() && t[k] == "-L."@ ==> lines[k]
                == "cargo:rustc-cdylib-link-arg="@ + match build_dir {
                Some(dir) => "-L"@ + dir,
                None => "-L."@,
            }
        },
{
}

/// Which setting is reported when one cannot be split: `BLDSHARED_EXE` (in a
/// shared build) is looked at first, then `BLDSHARED_ARGS`, both reported as
/// invalid linker arguments, then `LIBPYTHON`.
pub proof fn lemma_directive_errors(env: BuildEnv)
    ensures
        (!splits(opt_string(env.bldshared_args)) && (is_shared_build(env) ==> splits(opt_string(env.bldshared_exe))))
            ==> linker_directives(env) == Err::<Seq<Seq<char>>, BuildError>(BuildError::InvalidLinkerArgs),
        ((is_shared_build(env) ==> splits(opt_string(env.bldshared_exe))) && splits(opt_string(env.bldshared_args))
            && !splits(opt_string(env.libpython))) ==> linker_directives(env) == Err::<Seq<Seq<char>>, BuildError>(
            BuildError::InvalidLibpython,
        ),
{
}

/// The directives of one linker setting follow the head directives, one per
/// word that reaches the link: every word of `BLDSHARED_ARGS`, and the words
/// of `BLDSHARED_EXE` after its linker command (in a shared build).
pub proof fn lemma_setting_lines(env: BuildEnv)
    requires
        env.libpython is None,
        env.bldshared_exe is None || env.bldshared_args is None,
    ensures
        ({
            let dir = opt_string(env.python_build_dir);
            let base: int = if env.target_os@ == "macos"@ || env.target_os@ == "ios"@ { 9 } else { 7 };
            let words_in: Option<Seq<Seq<char>>> = if env.bldshared_args is Some {
                match shell_split(env.bldshared_args->0@) {
                    Some(a) => Some(kept_link_args(a, dir)),
                    None => None,
                }
            } else if env.bldshared_exe is Some && (env.rust_shared_build@ == "1"@ || env.target_os@ == "ios"@) {
                match shell_split(env.bldshared_exe->0@) {
                    Some(a) => Some(kept_link_args(strip_command(a, opt_compiler_prefix(opt_string(env.py_cc))), dir)),
                    None => None,
                }
            } else {
                Some(seq![])
            };
            words_in matches Some(w) ==> linker_directives(env) matches Ok(lines) && {
                &&& lines.len() == base + w.len()
                &&& forall|k: int| #![trigger w[k]] 0 <= k < w.len() ==> lines[base + k]
                    == "cargo:rustc-cdylib-link-arg="@ + w[k]
            }
        }),
{
    lemma_directives_shape(env);
    let dir = opt_string(env.python_build_dir);
    let apple = link_arg_lines(seq!["-undefined"@, "dynamic_lookup"@]);
    assert(apple.len() == 2);
    if let Ok(lines) = linker_directives(env) {
        let x = setting_lines(opt_string(env.bldshared_exe), is_shared_build(env), true, opt_string(env.py_cc), dir)->Ok_0;
        let y = setting_lines(opt_string(env.bldshared_args), true, false, opt_string(env.py_cc), dir)->Ok_0;
        let e: Seq<Seq<char>> = seq![];
        assert(libpython_lines(opt_string(env.libpython), dir) == Ok::<Seq<Seq<char>>, BuildError>(e));
        assert(lines == head_lines(env) + x + y + e);
        if env.bldshared_args is Some {
            assert(x =~= e);
        } else {
            assert(y =~= e);
        }
    }
}

} // verus!
