//! Link arguments for a CPython extension module built as a Cargo `cdylib`:
//! which words of the CPython build settings reach the linker.

use vstd::prelude::*;
use crate::shell::{is_flag, opt_text, opt_words, same_text, shell_split, shell_words, starts_with_dash, text_to_string, words};

verus! {

/// Index of the last word that is not a flag, if any.
pub open spec fn last_command_index(t: Seq<Seq<char>>) -> Option<int>
    decreases t.len(),
{
    if t.len() == 0 {
        None
    } else if !is_flag(t.last()) {
        Some(t.len() - 1)
    } else {
        last_command_index(t.drop_last())
    }
}

/// The command part of a compiler invocation such as `ccache clang -O2`:
/// the words up to and including the last one that is not a flag;
/// `None` when every word is a flag.
pub open spec fn command_prefix(t: Seq<Seq<char>>) -> Option<Seq<Seq<char>>> {
    match last_command_index(t) {
        Some(k) => Some(t.take(k + 1)),
        None => None,
    }
}

/// The command part of the compiler setting `raw`, split as a shell would.
pub open spec fn compiler_prefix(raw: Seq<char>) -> Option<Seq<Seq<char>>> {
    match shell_split(raw) {
        Some(t) => command_prefix(t),
        None => None,
    }
}

/// The command part for an optional compiler setting.
pub open spec fn opt_compiler_prefix(compiler: Option<Seq<char>>) -> Option<Seq<Seq<char>>> {
    match compiler {
        Some(c) => compiler_prefix(c),
        None => None,
    }
}

/// `args` without the leading linker command: without `prefix` when `args`
/// starts with it, else without the first word.
pub open spec fn strip_command(args: Seq<Seq<char>>, prefix: Option<Seq<Seq<char>>>) -> Seq<Seq<char>> {
    if prefix is Some && prefix->0.len() <= args.len() && args.take(prefix->0.len() as int) == prefix->0 {
        args.skip(prefix->0.len() as int)
    } else if args.len() == 0 {
        args
    } else {
        args.skip(1)
    }
}

proof fn lemma_last_command_index_take(t: Seq<Seq<char>>, i: int)
    requires
        0 <= i <= t.len(),
        forall|j: int| i <= j < t.len() ==> is_flag(#[trigger] t[j]),
    ensures
        last_command_index(t) == last_command_index(t.take(i)),
    decreases t.len() - i,
{
    if i < t.len() {
        let d = t.drop_last();
        assert forall|j: int| i <= j < d.len() implies is_flag(#[trigger] d[j]) by {
            assert(d[j] == t[j]);
        }
        lemma_last_command_index_take(d, i);
        assert(d.take(i) =~= t.take(i));
    } else {
        assert(t.take(i) =~= t);
    }
}

/// The command part of a list of words: the words up to and including the
/// last one that does not start with `-`; `None` when every word does.
pub fn command_prefix_of_tokens(tokens: Vec<String>) -> (res: Option<Vec<String>>)
    ensures
        opt_words(res) == command_prefix(words(tokens@)),
{
    let ghost t = words(tokens@);
    let mut i: usize = tokens.len();
    while i > 0
        invariant
            i <= tokens@.len(),
            t == words(tokens@),
            forall|j: int| i <= j < t.len() ==> is_flag(#[trigger] t[j]),
        decreases i,
    {
        if !starts_with_dash(tokens[i - 1].as_str()) {
            proof {
                lemma_last_command_index_take(t, i as int);
                assert(t.take(i as int).last() == t[i - 1]);
            }
            let mut tokens = tokens;
            tokens.truncate(i);
            assert(words(tokens@) =~= t.take(i as int));
            return Some(tokens);
        }
        i = i - 1;
    }
    proof {
        lemma_last_command_index_take(t, 0);
    }
    None
}

/// The command part of the compiler setting `raw`, split as a shell would:
/// `None` when it cannot be split or holds only flags.
pub fn compiler_command_prefix(raw: &str) -> (res: Option<Vec<String>>)
    ensures
        opt_words(res) == compiler_prefix(raw@),
{
    match shell_words(raw) {
        Some(tokens) => command_prefix_of_tokens(tokens),
        None => None,
    }
}

/// Drops the linker command from the front of `args`: the words of `prefix`
/// when `args` starts with them, otherwise the first word.
pub fn strip_command_prefix(args: Vec<String>, prefix: Option<Vec<String>>) -> (res: Vec<String>)
    ensures
        words(res@) == strip_command(words(args@), opt_words(prefix)),
{
    let ghost a = words(args@);
    if let Some(p) = prefix {
        let ghost pw = words(p@);
        if p.len() <= args.len() {
            let mut j: usize = 0;
            let mut same = true;
            while j < p.len()
                invariant
                    p.len() <= args.len(),
                    j <= p.len(),
                    a == words(args@),
                    pw == words(p@),
                    same == (forall|k: int| 0 <= k < j ==> a[k] == pw[k]),
                decreases p.len() - j,
            {
                let eq = args[j] == p[j];
                assert(a[j as int] == args@[j as int]@ && pw[j as int] == p@[j as int]@);
                if !eq {
                    same = false;
                }
                j = j + 1;
            }
            if same {
                assert(a.take(pw.len() as int) =~= pw);
                let mut args = args;
                let rest = args.split_off(p.len());
                assert(words(rest@) =~= a.skip(pw.len() as int));
                return rest;
            } else {
                assert(a.take(pw.len() as int) != pw) by {
                    let k = choose|k: int| 0 <= k < p.len() && a[k] != pw[k];
                    assert(a.take(pw.len() as int)[k] == a[k]);
                }
            }
        }
    }
    if args.len() == 0 {
        return args;
    }
    let mut args = args;
    let rest = args.split_off(1);
    assert(words(rest@) =~= a.skip(1));
    rest
}

/// Drops the linker command that starts the words of a compiler-and-linker
/// setting: the command part of `compiler` when the words start with it,
/// otherwise the first word.
pub fn strip_linker_executable(args: Vec<String>, compiler: Option<&str>) -> (res: Vec<String>)
    ensures
        words(res@) == strip_command(words(args@), opt_compiler_prefix(opt_text(compiler))),
{
    let prefix = match compiler {
        Some(c) => compiler_command_prefix(c),
        None => None,
    };
    strip_command_prefix(args, prefix)
}

/// `s` without its first `n` words (empty when it has fewer).
pub open spec fn drop_words(s: Seq<Seq<char>>, n: int) -> Seq<Seq<char>> {
    if n <= s.len() {
        s.skip(n)
    } else {
        seq![]
    }
}

/// The value that follows `-F`: `.` stands for the build directory when one
/// is known.
pub open spec fn framework_dir(v: Seq<char>, build_dir: Option<Seq<char>>) -> Seq<char> {
    if v == "."@ {
        match build_dir {
            Some(d) => d,
            None => "."@,
        }
    } else {
        v
    }
}

/// The linker words that are handed on to a Cargo `cdylib` link, in order:
/// `-bundle_loader` and its value, `-bundle`, `-dynamiclib`, and the pair
/// `-undefined dynamic_lookup` are dropped; `-F` keeps its value, with `.`
/// resolved to the build directory; every other word is kept.
pub open spec fn kept_link_args(s: Seq<Seq<char>>, build_dir: Option<Seq<char>>) -> Seq<Seq<char>>
    decreases s.len(),
{
    if s.len() == 0 {
        seq![]
    } else if s[0] == "-bundle_loader"@ {
        kept_link_args(drop_words(s, 2), build_dir)
    } else if s[0] == "-bundle"@ || s[0] == "-dynamiclib"@ {
        kept_link_args(s.skip(1), build_dir)
    } else if s[0] == "-undefined"@ && s.len() > 1 && s[1] == "dynamic_lookup"@ {
        kept_link_args(s.skip(2), build_dir)
    } else if s[0] == "-F"@ && s.len() > 1 {
        seq!["-F"@, framework_dir(s[1], build_dir)] + kept_link_args(s.skip(2), build_dir)
    } else {
        seq![s[0]] + kept_link_args(s.skip(1), build_dir)
    }
}

/// The linker words of `args` that are handed on to a Cargo `cdylib` link
/// (see `kept_link_args`).
pub fn filter_link_args(args: &Vec<String>, build_dir: Option<&str>) -> (res: Vec<String>)
    ensures
        words(res@) == kept_link_args(words(args@), opt_text(build_dir)),
{
    let ghost a = words(args@);
    let ghost dir = opt_text(build_dir);
    let len = args.len();
    let mut out: Vec<String> = Vec::new();
    let mut i: usize = 0;
    assert(a.skip(0) =~= a);
    while i < len
        invariant
            len == args@.len(),
            a == words(args@),
            dir == opt_text(build_dir),
            i <= len,
            words(out@) + kept_link_args(a.skip(i as int), dir) == kept_link_args(a, dir),
        decreases len - i,
    {
        let ghost r = a.skip(i as int);
        let ghost before = words(out@);
        assert(r[0] == args@[i as int]@);
        let w = args[i].as_str();
        if same_text(w, "-bundle_loader") {
            if len - i >= 2 {
                assert(drop_words(r, 2) =~= a.skip(i + 2));
                i = i + 2;
            } else {
                assert(drop_words(r, 2) =~= a.skip(len as int));
                i = len;
            }
        } else if same_text(w, "-bundle") || same_text(w, "-dynamiclib") {
            assert(r.skip(1) =~= a.skip(i + 1));
            i = i + 1;
        } else if same_text(w, "-undefined") && i + 1 < len && same_text(args[i + 1].as_str(), "dynamic_lookup") {
            assert(r[1] == args@[i + 1]@);
            assert(r.skip(2) =~= a.skip(i + 2));
            i = i + 2;
        } else if same_text(w, "-F") && i + 1 < len {
            assert(r[1] == args@[i + 1]@);
            let v = args[i + 1].as_str();
            let value = if same_text(v, ".") {
                match build_dir {
                    Some(d) => text_to_string(d),
                    None => text_to_string("."),
                }
            } else {
                text_to_string(v)
            };
            out.push(text_to_string("-F"));
            out.push(value);
            assert(words(out@) =~= before + seq!["-F"@, framework_dir(r[1], dir)]);
            assert(r.skip(2) =~= a.skip(i + 2));
            i = i + 2;
        } else {
            out.push(text_to_string(w));
            assert(words(out@) =~= before + seq![r[0]]);
            assert(r.skip(1) =~= a.skip(i + 1));
            i = i + 1;
        }
    }
    assert(a.skip(len as int) =~= seq![]);
    assert(words(out@) + seq![] =~= words(out@));
    out
}

/// The linker words of the setting `raw` that reach the link, or `None` when
/// `raw` cannot be split. With `skip_first`, the linker command at the front
/// (see `strip_command`) is dropped first.
pub open spec fn link_args_of(
    raw: Seq<char>,
    skip_first: bool,
    compiler: Option<Seq<char>>,
    build_dir: Option<Seq<char>>,
) -> Option<Seq<Seq<char>>> {
    match shell_split(raw) {
        None => None,
        Some(a) => {
            let a = if skip_first { strip_command(a, opt_compiler_prefix(compiler)) } else { a };
            Some(kept_link_args(a, build_dir))
        },
    }
}

/// The linker words of the setting `raw` that reach the link: `raw` is split
/// as a shell would, stripped of its linker command when `skip_first` holds
/// (using the compiler setting `compiler`), and filtered by
/// `filter_link_args`. `None` when `raw` cannot be split.
pub fn link_args(raw: &str, skip_first: bool, compiler: Option<&str>, build_dir: Option<&str>) -> (res:
    Option<Vec<String>>)
    ensures
        opt_words(res) == link_args_of(raw@, skip_first, opt_text(compiler), opt_text(build_dir)),
{
    match shell_words(raw) {
        None => None,
        Some(args) => {
            let args = if skip_first {
                strip_linker_executable(args, compiler)
            } else {
                args
            };
            Some(filter_link_args(&args, build_dir))
        },
    }
}

/// The command part of a compiler invocation is a non-empty prefix of its
/// words that ends in a word that is not a flag, and only flags follow it;
/// there is none exactly when every word is a flag.
pub proof fn lemma_command_prefix_shape(t: Seq<Seq<char>>)
    ensures
        command_prefix(t) matches Some(p) ==> {
            &&& 1 <= p.len() <= t.len()
            &&& p == t.take(p.len() as int)
            &&& !(p.last().len() > 0 && p.last()[0] == '-')
            &&& forall|j: int| #![trigger t[j]] p.len() <= j < t.len() ==> t[j].len() > 0 && t[j][0] == '-'
        },
        command_prefix(t) is None <==> forall|j: int| #![trigger t[j]] 0 <= j < t.len() ==> t[j].len() > 0 && t[j][0]
            == '-',
        last_command_index(t) matches Some(k) ==> 0 <= k < t.len(),
    decreases t.len(),
{
    if t.len() > 0 {
        let d = t.drop_last();
        lemma_command_prefix_shape(d);
        if is_flag(t.last()) {
            match last_command_index(d) {
                Some(k) => {
                    assert(command_prefix(d) == Some(d.take(k + 1)));
                    assert(d.take(k + 1).len() == k + 1);
                    assert(d.take(k + 1).last() == d[k]);
                    assert(d.take(k + 1) =~= t.take(k + 1));
                    assert forall|j: int| k + 1 <= j < t.len() implies is_flag(#[trigger] t[j]) by {
                        if j < d.len() {
                            assert(d[j] == t[j]);
                        }
                    }
                    assert(!is_flag(d[k]));
                    assert(t[k] == d[k]);
                },
                None => {
                    assert forall|j: int| 0 <= j < t.len() implies is_flag(#[trigger] t[j]) by {
                        if j < d.len() {
                            assert(d[j] == t[j]);
                        }
                    }
                },
            }
        } else {
            assert(t.take(t.len() as int) =~= t);
        }
    }
}

/// Stripping the linker command leaves a suffix of the words, and it drops at
/// least one word whenever there is one.
pub proof fn lemma_strip_linker_suffix(args: Seq<Seq<char>>, compiler: Option<Seq<char>>)
    ensures
        strip_command(args, opt_compiler_prefix(compiler)).len() <= args.len(),
        strip_command(args, opt_compiler_prefix(compiler)) == args.skip(
            args.len() - strip_command(args, opt_compiler_prefix(compiler)).len(),
        ),
        args.len() > 0 ==> strip_command(args, opt_compiler_prefix(compiler)).len() < args.len(),
{
    let p = opt_compiler_prefix(compiler);
    match compiler {
        Some(c) => match shell_split(c) {
            Some(t) => lemma_command_prefix_shape(t),
            None => {},
        },
        None => {},
    }
    if args.len() == 0 {
        assert(args.skip(0) =~= args);
    }
}

/// A word that the link filter treats specially.
pub open spec fn is_link_keyword(w: Seq<char>) -> bool {
    ||| w == "-bundle_loader"@
    ||| w == "-bundle"@
    ||| w == "-dynamiclib"@
    ||| w == "-undefined"@
    ||| w == "-F"@
}

/// Filtering never adds words: it keeps at most as many words as it is given.
pub proof fn lemma_kept_len(s: Seq<Seq<char>>, build_dir: Option<Seq<char>>)
    ensures
        kept_link_args(s, build_dir).len() <= s.len(),
    decreases s.len(),
{
    if s.len() > 0 {
        if s[0] == "-bundle_loader"@ {
            lemma_kept_len(drop_words(s, 2), build_dir);
        } else if s[0] == "-bundle"@ || s[0] == "-dynamiclib"@ {
            lemma_kept_len(s.skip(1), build_dir);
        } else if s[0] == "-undefined"@ && s.len() > 1 && s[1] == "dynamic_lookup"@ {
            lemma_kept_len(s.skip(2), build_dir);
        } else if s[0] == "-F"@ && s.len() > 1 {
            lemma_kept_len(s.skip(2), build_dir);
        } else {
            lemma_kept_len(s.skip(1), build_dir);
        }
    }
}

/// Every word that reaches the link is one of the given words, or the build
/// directory standing for `.`.
pub proof fn lemma_kept_from_input(s: Seq<Seq<char>>, build_dir: Option<Seq<char>>)
    ensures
        forall|k: int| 0 <= k < kept_link_args(s, build_dir).len() ==> {
            ||| s.contains(#[trigger] kept_link_args(s, build_dir)[k])
            ||| build_dir == Some(kept_link_args(s, build_dir)[k])
        },
    decreases s.len(),
{
    let out = kept_link_args(s, build_dir);
    if s.len() > 0 {
        let rest = if s[0] == "-bundle_loader"@ {
            drop_words(s, 2)
        } else if s[0] == "-bundle"@ || s[0] == "-dynamiclib"@ {
            s.skip(1)
        } else if s[0] == "-undefined"@ && s.len() > 1 && s[1] == "dynamic_lookup"@ {
            s.skip(2)
        } else if s[0] == "-F"@ && s.len() > 1 {
            s.skip(2)
        } else {
            s.skip(1)
        };
        lemma_kept_from_input(rest, build_dir);
        let r = kept_link_args(rest, build_dir);
        assert forall|w: Seq<char>| rest.contains(w) implies s.contains(w) by {
            let i = choose|i: int| 0 <= i < rest.len() && rest[i] == w;
            if s[0] == "-bundle_loader"@ {
                if s.len() >= 2 {
                    assert(rest == s.skip(2));
                    assert(s[i + 2] == w);
                }
            } else if s[0] == "-bundle"@ || s[0] == "-dynamiclib"@ {
                assert(s[i + 1] == w);
            } else if (s[0] == "-undefined"@ && s.len() > 1 && s[1] == "dynamic_lookup"@) || (s[0] == "-F"@
                && s.len() > 1) {
                assert(s[i + 2] == w);
            } else {
                assert(s[i + 1] == w);
            }
        }
        assert forall|k: int| 0 <= k < out.len() implies {
            ||| s.contains(#[trigger] out[k])
            ||| build_dir == Some(out[k])
        } by {
            if s[0] == "-bundle_loader"@ || s[0] == "-bundle"@ || s[0] == "-dynamiclib"@ || (s[0] == "-undefined"@
                && s.len() > 1 && s[1] == "dynamic_lookup"@) {
                assert(out[k] == r[k]);
            } else if s[0] == "-F"@ && s.len() > 1 {
                if k == 0 {
                    assert(s[0] == out[k]);
                } else if k == 1 {
                    if s[1] == "."@ && build_dir is Some {
                    } else {
                        assert(s[1] == out[k]);
                    }
                } else {
                    assert(out[k] == r[k - 2]);
                }
            } else {
                if k == 0 {
                    assert(s[0] == out[k]);
                } else {
                    assert(out[k] == r[k - 1]);
                }
            }
        }
    }
}

/// Words among which the filter finds nothing to act on reach the link
/// unchanged.
pub proof fn lemma_kept_plain(s: Seq<Seq<char>>, build_dir: Option<Seq<char>>)
    requires
        forall|k: int| 0 <= k < s.len() ==> !is_link_keyword(#[trigger] s[k]),
    ensures
        kept_link_args(s, build_dir) == s,
    decreases s.len(),
{
    if s.len() > 0 {
        assert(!is_link_keyword(s[0]));
        let rest = s.skip(1);
        assert forall|k: int| 0 <= k < rest.len() implies !is_link_keyword(#[trigger] rest[k]) by {
            assert(rest[k] == s[k + 1]);
        }
        lemma_kept_plain(rest, build_dir);
        assert(seq![s[0]] + rest =~= s);
    }
}

/// A word counts as a flag exactly when its first character is `-`, whatever
/// follows: a word that does not begin with `-` placed last makes the whole
/// list the command part, and one that does leaves the command part of the
/// words before it unchanged.
pub proof fn lemma_command_prefix_last_word(t: Seq<Seq<char>>, w: Seq<char>)
    ensures
        !(w.len() > 0 && w[0] == '-') ==> command_prefix(t.push(w)) == Some(t.push(w)),
        (w.len() > 0 && w[0] == '-') ==> command_prefix(t.push(w)) == command_prefix(t),
{
    let tw = t.push(w);
    assert(tw.last() == w);
    assert(tw.drop_last() =~= t);
    assert(tw.take(tw.len() as int) =~= tw);
    lemma_command_prefix_shape(t);
    if let Some(k) = last_command_index(t) {
        assert(tw.take(k + 1) =~= t.take(k + 1));
    }
}

/// The linker command is stripped only when the words start with it word for
/// word, first word included; otherwise exactly the first word goes. Without
/// a known command, the first word goes.
pub proof fn lemma_strip_command_exact(args: Seq<Seq<char>>, p: Seq<Seq<char>>)
    ensures
        (p.len() <= args.len() && forall|k: int| 0 <= k < p.len() ==> #[trigger] args[k] == p[k]) ==> strip_command(
            args,
            Some(p),
        ) == args.skip(p.len() as int),
        (args.len() > 0 && !(p.len() <= args.len() && forall|k: int| 0 <= k < p.len() ==> #[trigger] args[k]
            == p[k])) ==> strip_command(args, Some(p)) == args.skip(1),
        args.len() > 0 ==> strip_command(args, None) == args.skip(1),
        strip_command(seq![], None) == Seq::<Seq<char>>::empty(),
{
    if p.len() <= args.len() {
        if forall|k: int| 0 <= k < p.len() ==> #[trigger] args[k] == p[k] {
            assert(args.take(p.len() as int) =~= p);
        } else {
            let k = choose|k: int| 0 <= k < p.len() && #[trigger] args[k] != p[k];
            assert(args.take(p.len() as int)[k] == args[k]);
        }
    }
}

/// How each word is treated, stated one case at a time: `-bundle` and
/// `-dynamiclib` are dropped; `-bundle_loader` is dropped with the word after
/// it; `-undefined` is dropped only together with a following
/// `dynamic_lookup`; `-F` keeps the word after it, which is replaced by the
/// build directory only when it is exactly `.`; any other word is kept.
pub proof fn lemma_kept_cases(s: Seq<Seq<char>>, w: Seq<char>, v: Seq<char>, d: Option<Seq<char>>)
    ensures
        kept_link_args(seq![], d) == Seq::<Seq<char>>::empty(),
        kept_link_args(seq!["-bundle"@] + s, d) == kept_link_args(s, d),
        kept_link_args(seq!["-dynamiclib"@] + s, d) == kept_link_args(s, d),
        kept_link_args(seq!["-bundle_loader"@, v] + s, d) == kept_link_args(s, d),
        kept_link_args(seq!["-bundle_loader"@], d) == Seq::<Seq<char>>::empty(),
        kept_link_args(seq!["-undefined"@, "dynamic_lookup"@] + s, d) == kept_link_args(s, d),
        v != "dynamic_lookup"@ ==> kept_link_args(seq!["-undefined"@, v] + s, d) == seq!["-undefined"@]
            + kept_link_args(seq![v] + s, d),
        kept_link_args(seq!["-undefined"@], d) == seq!["-undefined"@],
        v != "."@ ==> kept_link_args(seq!["-F"@, v] + s, d) == seq!["-F"@, v] + kept_link_args(s, d),
        kept_link_args(seq!["-F"@, "."@] + s, d) == seq![
            "-F"@,
            match d {
                Some(x) => x,
                None => "."@,
            },
        ] + kept_link_args(s, d),
        kept_link_args(seq!["-F"@], d) == seq!["-F"@],
        !is_link_keyword(w) ==> kept_link_args(seq![w] + s, d) == seq![w] + kept_link_args(s, d),
{
    reveal_strlit("-bundle");
    reveal_strlit("-dynamiclib");
    reveal_strlit("-bundle_loader");
    reveal_strlit("-undefined");
    reveal_strlit("dynamic_lookup");
    reveal_strlit("-F");
    reveal_strlit(".");
    assert("-bundle"@.len() == 7);
    assert("-dynamiclib"@.len() == 11);
    assert("-bundle_loader"@.len() == 14);
    assert("-undefined"@.len() == 10);
    assert("-F"@.len() == 2);
    let e: Seq<Seq<char>> = seq![];
    assert((seq!["-bundle"@] + s).skip(1) =~= s);
    assert((seq!["-dynamiclib"@] + s).skip(1) =~= s);
    assert(drop_words(seq!["-bundle_loader"@, v] + s, 2) =~= s);
    assert(drop_words(seq!["-bundle_loader"@], 2) =~= e);
    assert(kept_link_args(e, d) == e);
    assert((seq!["-undefined"@, "dynamic_lookup"@] + s).skip(2) =~= s);
    assert((seq!["-undefined"@, v] + s).skip(1) =~= seq![v] + s);
    assert(seq!["-undefined"@].skip(1) =~= e);
    assert(seq!["-undefined"@] + e =~= seq!["-undefined"@]);
    assert((seq!["-F"@, v] + s).skip(2) =~= s);
    assert((seq!["-F"@, "."@] + s).skip(2) =~= s);
    assert(seq!["-F"@].skip(1) =~= e);
    assert(seq!["-F"@] + e =~= seq!["-F"@]);
    assert((seq![w] + s).skip(1) =~= s);
    assert((seq!["-bundle"@] + s)[0] == "-bundle"@);
    assert((seq!["-dynamiclib"@] + s)[0] == "-dynamiclib"@);
    assert((seq!["-bundle_loader"@, v] + s)[0] == "-bundle_loader"@);
    assert((seq!["-undefined"@, "dynamic_lookup"@] + s)[1] == "dynamic_lookup"@);
    assert((seq!["-undefined"@, v] + s)[1] == v);
    assert((seq!["-F"@, v] + s)[1] == v);
    assert((seq!["-F"@, "."@] + s)[1] == "."@);
    assert((seq![w] + s)[0] == w);
}

/// A linker setting is split, stripped of its linker command only when asked,
/// and filtered against the build directory either way.
pub proof fn lemma_link_args_steps(
    raw: Seq<char>,
    compiler: Option<Seq<char>>,
    build_dir: Option<Seq<char>>,
)
    ensures
        shell_split(raw) is None ==> link_args_of(raw, false, compiler, build_dir) is None && link_args_of(
            raw,
            true,
            compiler,
            build_dir,
        ) is None,
        shell_split(raw) matches Some(a) ==> link_args_of(raw, false, compiler, build_dir) == Some(
            kept_link_args(a, build_dir),
        ),
        shell_split(raw) matches Some(a) ==> link_args_of(raw, true, compiler, build_dir) == Some(
            kept_link_args(strip_command(a, opt_compiler_prefix(compiler)), build_dir),
        ),
{
}

/// The compiler setting decides what is stripped: when the words start with
/// the command part of the compiler setting, all of it goes.
pub proof fn lemma_strip_uses_compiler(args: Seq<Seq<char>>, compiler: Seq<char>)
    requires
        shell_split(compiler) matches Some(t) && command_prefix(t) matches Some(p) && p.len() <= args.len()
            && args.take(p.len() as int) == p,
    ensures
        strip_command(args, opt_compiler_prefix(Some(compiler))) == args.skip(
            command_prefix(shell_split(compiler)->0)->0.len() as int,
        ),
{
    let p = command_prefix(shell_split(compiler)->0)->0;
    assert forall|k: int| 0 <= k < p.len() implies #[trigger] args[k] == p[k] by {
        assert(args.take(p.len() as int)[k] == args[k]);
    }
    lemma_strip_command_exact(args, p);
}

} // verus!
