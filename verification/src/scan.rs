use vstd::prelude::*;

use crate::strutil::str_eq;

verus! {

/// Directory names the scanner never descends into: version-control
/// metadata, dependency and build trees, caches, IDE state, and temporary
/// directories.
pub open spec fn spec_always_skipped(name: Seq<char>) -> bool {
    ||| name == ".git"@
    ||| name == ".svn"@
    ||| name == ".hg"@
    ||| name == ".bzr"@
    ||| name == "node_modules"@
    ||| name == "vendor"@
    ||| name == "target"@
    ||| name == "build"@
    ||| name == "dist"@
    ||| name == "out"@
    ||| name == ".cache"@
    ||| name == ".npm"@
    ||| name == ".yarn"@
    ||| name == ".pnpm"@
    ||| name == "__pycache__"@
    ||| name == ".pytest_cache"@
    ||| name == ".vscode"@
    ||| name == ".idea"@
    ||| name == ".vs"@
    ||| name == ".eclipse"@
    ||| name == ".netbeans"@
    ||| name == ".DS_Store"@
    ||| name == "tmp"@
    ||| name == "temp"@
    ||| name == ".tmp"@
    ||| name == ".temp"@
    ||| name == "coverage"@
    ||| name == ".nyc_output"@
    ||| name == ".next"@
    ||| name == ".nuxt"@
    ||| name == ".gradle"@
}

/// A directory is skipped when its name is on the fixed list or is hidden
/// (starts with a dot).
pub open spec fn spec_should_skip(name: Seq<char>) -> bool {
    spec_always_skipped(name) || (name.len() > 0 && name[0] == '.')
}

/// Whether the scanner skips a directory with this name. Callers skip a
/// directory whose name cannot be read at all.
pub fn should_skip_directory(name: &str) -> (r: bool)
    ensures
        r == spec_should_skip(name@),
{
    if str_eq(name, ".git") || str_eq(name, ".svn") || str_eq(name, ".hg") || str_eq(name, ".bzr")
        || str_eq(name, "node_modules") || str_eq(name, "vendor") || str_eq(name, "target")
        || str_eq(name, "build") || str_eq(name, "dist") || str_eq(name, "out") || str_eq(
        name,
        ".cache",
    ) || str_eq(name, ".npm") || str_eq(name, ".yarn") || str_eq(name, ".pnpm") || str_eq(
        name,
        "__pycache__",
    ) || str_eq(name, ".pytest_cache") || str_eq(name, ".vscode") || str_eq(name, ".idea")
        || str_eq(name, ".vs") || str_eq(name, ".eclipse") || str_eq(name, ".netbeans") || str_eq(
        name,
        ".DS_Store",
    ) || str_eq(name, "tmp") || str_eq(name, "temp") || str_eq(name, ".tmp") || str_eq(
        name,
        ".temp",
    ) || str_eq(name, "coverage") || str_eq(name, ".nyc_output") || str_eq(name, ".next")
        || str_eq(name, ".nuxt") || str_eq(name, ".gradle") {
        return true;
    }
    let n = name.unicode_len();
    n > 0 && name.get_char(0) == '.'
}

/// Files whose presence marks a directory as a project root.
pub open spec fn spec_project_indicators() -> Seq<Seq<char>> {
    seq![
        "package.json"@,
        "Cargo.toml"@,
        "pyproject.toml"@,
        "go.mod"@,
        "pom.xml"@,
        "build.gradle"@,
        "Makefile"@,
        ".project"@,
        "composer.json"@,
        "requirements.txt"@,
        "setup.py"@,
        "Gemfile"@,
        "mix.exs"@,
        "deno.json"@,
    ]
}

/// The indicator file names, for callers that probe a directory for each.
pub fn project_indicator_files() -> (r: Vec<&'static str>)
    ensures
        r.deep_view() == spec_project_indicators(),
{
    let mut v: Vec<&'static str> = Vec::new();
    v.push("package.json");
    v.push("Cargo.toml");
    v.push("pyproject.toml");
    v.push("go.mod");
    v.push("pom.xml");
    v.push("build.gradle");
    v.push("Makefile");
    v.push(".project");
    v.push("composer.json");
    v.push("requirements.txt");
    v.push("setup.py");
    v.push("Gemfile");
    v.push("mix.exs");
    v.push("deno.json");
    proof {
        assert(v.deep_view() =~= spec_project_indicators());
    }
    v
}

/// The clone URL of a GitHub repository.
pub fn github_clone_url(owner: &str, repo: &str) -> (r: String)
    ensures
        r@ == "https://github.com/"@ + owner@ + "/"@ + repo@ + ".git"@,
{
    let mut url = String::from_str("https://github.com/");
    url.append(owner);
    url.append("/");
    url.append(repo);
    url.append(".git");
    proof {
        assert(url@ =~= "https://github.com/"@ + owner@ + "/"@ + repo@ + ".git"@);
    }
    url
}

/// `i` is the position of the only `/` in `s`.
pub open spec fn is_unique_slash_split(s: Seq<char>, i: int) -> bool {
    0 <= i < s.len() && s[i] == '/' && forall|k: int|
        0 <= k < s.len() && k != i ==> (#[trigger] s[k]) != '/'
}

/// Meaning of an `owner/repo` argument: the parts around the only slash,
/// `None` when the string does not hold exactly one.
pub open spec fn spec_parse_repo(s: Seq<char>) -> Option<(Seq<char>, Seq<char>)> {
    if exists|i: int| is_unique_slash_split(s, i) {
        let i = choose|i: int| is_unique_slash_split(s, i);
        Some((s.subrange(0, i), s.subrange(i + 1, s.len() as int)))
    } else {
        None
    }
}

/// Splits an `owner/repo` argument at its only slash; `None` when the
/// string does not have exactly one.
pub fn parse_repo_spec(s: &str) -> (r: Option<(String, String)>)
    ensures
        match r {
            Some(p) => spec_parse_repo(s@) == Some((p.0@, p.1@)),
            None => spec_parse_repo(s@) is None,
        },
{
    let n = s.unicode_len();
    let mut idx: usize = 0;
    let mut count: usize = 0;
    let ghost mut second: int = 0;
    let mut i: usize = 0;
    while i < n
        invariant
            n == s@.len(),
            0 <= i <= n,
            count <= i,
            count == 0 ==> forall|k: int| 0 <= k < i ==> (#[trigger] s@[k]) != '/',
            count >= 1 ==> idx < i && s@[idx as int] == '/',
            count == 1 ==> forall|k: int|
                0 <= k < i && k != idx ==> (#[trigger] s@[k]) != '/',
            count >= 2 ==> idx < second < i && s@[second] == '/',
        decreases n - i,
    {
        if s.get_char(i) == '/' {
            if count == 0 {
                idx = i;
            } else if count == 1 {
                proof {
                    second = i as int;
                }
            }
            count += 1;
        }
        i += 1;
    }
    if count == 1 {
        proof {
            assert(is_unique_slash_split(s@, idx as int));
            let j = choose|j: int| is_unique_slash_split(s@, j);
            assert(is_unique_slash_split(s@, j));
            if j != idx {
                assert(s@[j] != '/');
                assert(false);
            }
        }
        let owner = s.substring_char(0, idx).to_owned();
        let repo = s.substring_char(idx + 1, n).to_owned();
        Some((owner, repo))
    } else {
        proof {
            if exists|j: int| is_unique_slash_split(s@, j) {
                let j = choose|j: int| is_unique_slash_split(s@, j);
                assert(is_unique_slash_split(s@, j));
                if count == 0 {
                    assert(s@[j] != '/');
                } else {
                    if j != idx {
                        assert(s@[idx as int] != '/');
                    } else {
                        assert(s@[second] != '/');
                    }
                }
                assert(false);
            }
        }
        None
    }
}

/// The string without its trailing slashes.
pub open spec fn strip_trailing_slashes(s: Seq<char>) -> Seq<char>
    decreases s.len(),
{
    if s.len() > 0 && s.last() == '/' {
        strip_trailing_slashes(s.drop_last())
    } else {
        s
    }
}

/// The run of characters after the last slash.
pub open spec fn after_last_slash(s: Seq<char>) -> Seq<char>
    decreases s.len(),
{
    if s.len() == 0 {
        s
    } else if s.last() == '/' {
        Seq::empty()
    } else {
        after_last_slash(s.drop_last()).push(s.last())
    }
}

/// The default name of a project added by path: the path's final component,
/// or a fixed fallback when the path has none.
pub open spec fn spec_default_name(path: Seq<char>) -> Seq<char> {
    let base = after_last_slash(strip_trailing_slashes(path));
    if base.len() == 0 {
        "unnamed-project"@
    } else {
        base
    }
}

/// A slash-free tail of `t` starting right after a slash (or at the start)
/// is exactly what stands after the last slash.
proof fn lemma_after_last_slash(t: Seq<char>, j: int)
    requires
        0 <= j <= t.len(),
        forall|k: int| j <= k < t.len() ==> (#[trigger] t[k]) != '/',
        j == 0 || t[j - 1] == '/',
    ensures
        after_last_slash(t) == t.subrange(j, t.len() as int),
    decreases t.len(),
{
    if t.len() == 0 {
        assert(after_last_slash(t) =~= t.subrange(0, 0));
    } else if j == t.len() {
        assert(t.last() == '/');
        assert(after_last_slash(t) =~= t.subrange(j, t.len() as int));
    } else {
        assert(t.last() != '/');
        let u = t.drop_last();
        assert(forall|k: int| j <= k < u.len() ==> (#[trigger] u[k]) != '/');
        lemma_after_last_slash(u, j);
        assert(u.subrange(j, u.len() as int).push(t.last()) =~= t.subrange(j, t.len() as int));
    }
}

/// Default name for a project added at `path`, derived from the path's
/// final component; a path with no component falls back to a fixed name.
pub fn default_project_name(path: &str) -> (r: String)
    ensures
        r@ == spec_default_name(path@),
{
    let n = path.unicode_len();
    proof {
        assert(path@.subrange(0, n as int) =~= path@);
    }
    let mut end: usize = n;
    while end > 0 && path.get_char(end - 1) == '/'
        invariant
            n == path@.len(),
            0 <= end <= n,
            strip_trailing_slashes(path@) == strip_trailing_slashes(
                path@.subrange(0, end as int),
            ),
        decreases end,
    {
        proof {
            assert(path@.subrange(0, end as int).last() == path@[end - 1]);
            assert(path@.subrange(0, end as int).drop_last() =~= path@.subrange(0, end - 1));
        }
        end -= 1;
    }
    proof {
        assert(path@.subrange(0, n as int) =~= path@);
        assert(strip_trailing_slashes(path@.subrange(0, end as int)) == path@.subrange(
            0,
            end as int,
        ));
    }
    let mut start: usize = end;
    while start > 0 && path.get_char(start - 1) != '/'
        invariant
            n == path@.len(),
            0 <= start <= end <= n,
            forall|k: int| start <= k < end ==> (#[trigger] path@[k]) != '/',
        decreases start,
    {
        start -= 1;
    }
    proof {
        let t = path@.subrange(0, end as int);
        assert(forall|k: int|
            start <= k < t.len() ==> (#[trigger] t[k]) == path@[k] && t[k] != '/');
        lemma_after_last_slash(t, start as int);
    }
    if start == end {
        String::from_str("unnamed-project")
    } else {
        let base = path.substring_char(start, end);
        proof {
            assert(base@ =~= path@.subrange(0, end as int).subrange(
                start as int,
                end as int,
            ));
        }
        base.to_owned()
    }
}

/// The language a source-file extension marks, if any.
pub open spec fn language_of_ext(e: Seq<char>) -> Option<Seq<char>> {
    if e == "rs"@ {
        Some("Rust"@)
    } else if e == "js"@ || e == "jsx"@ {
        Some("JavaScript"@)
    } else if e == "ts"@ || e == "tsx"@ {
        Some("TypeScript"@)
    } else if e == "py"@ {
        Some("Python"@)
    } else if e == "go"@ {
        Some("Go"@)
    } else if e == "java"@ {
        Some("Java"@)
    } else if e == "cpp"@ || e == "cc"@ || e == "cxx"@ {
        Some("C++"@)
    } else if e == "c"@ {
        Some("C"@)
    } else if e == "rb"@ {
        Some("Ruby"@)
    } else if e == "php"@ {
        Some("PHP"@)
    } else if e == "swift"@ {
        Some("Swift"@)
    } else if e == "kt"@ {
        Some("Kotlin"@)
    } else if e == "dart"@ {
        Some("Dart"@)
    } else if e == "scala"@ {
        Some("Scala"@)
    } else if e == "clj"@ {
        Some("Clojure"@)
    } else if e == "hs"@ {
        Some("Haskell"@)
    } else if e == "ml"@ {
        Some("OCaml"@)
    } else if e == "fs"@ {
        Some("F#"@)
    } else if e == "elm"@ {
        Some("Elm"@)
    } else if e == "ex"@ || e == "exs"@ {
        Some("Elixir"@)
    } else if e == "erl"@ {
        Some("Erlang"@)
    } else if e == "lua"@ {
        Some("Lua"@)
    } else if e == "r"@ {
        Some("R"@)
    } else if e == "jl"@ {
        Some("Julia"@)
    } else if e == "nim"@ {
        Some("Nim"@)
    } else if e == "zig"@ {
        Some("Zig"@)
    } else if e == "v"@ {
        Some("V"@)
    } else if e == "cr"@ {
        Some("Crystal"@)
    } else if e == "d"@ {
        Some("D"@)
    } else {
        None
    }
}

/// Run-time counterpart of [`language_of_ext`].
fn ext_language(e: &str) -> (r: Option<&'static str>)
    ensures
        match r {
            Some(l) => language_of_ext(e@) == Some(l@),
            None => language_of_ext(e@) is None,
        },
{
    if str_eq(e, "rs") {
        Some("Rust")
    } else if str_eq(e, "js") || str_eq(e, "jsx") {
        Some("JavaScript")
    } else if str_eq(e, "ts") || str_eq(e, "tsx") {
        Some("TypeScript")
    } else if str_eq(e, "py") {
        Some("Python")
    } else if str_eq(e, "go") {
        Some("Go")
    } else if str_eq(e, "java") {
        Some("Java")
    } else if str_eq(e, "cpp") || str_eq(e, "cc") || str_eq(e, "cxx") {
        Some("C++")
    } else if str_eq(e, "c") {
        Some("C")
    } else if str_eq(e, "rb") {
        Some("Ruby")
    } else if str_eq(e, "php") {
        Some("PHP")
    } else if str_eq(e, "swift") {
        Some("Swift")
    } else if str_eq(e, "kt") {
        Some("Kotlin")
    } else if str_eq(e, "dart") {
        Some("Dart")
    } else if str_eq(e, "scala") {
        Some("Scala")
    } else if str_eq(e, "clj") {
        Some("Clojure")
    } else if str_eq(e, "hs") {
        Some("Haskell")
    } else if str_eq(e, "ml") {
        Some("OCaml")
    } else if str_eq(e, "fs") {
        Some("F#")
    } else if str_eq(e, "elm") {
        Some("Elm")
    } else if str_eq(e, "ex") || str_eq(e, "exs") {
        Some("Elixir")
    } else if str_eq(e, "erl") {
        Some("Erlang")
    } else if str_eq(e, "lua") {
        Some("Lua")
    } else if str_eq(e, "r") {
        Some("R")
    } else if str_eq(e, "jl") {
        Some("Julia")
    } else if str_eq(e, "nim") {
        Some("Nim")
    } else if str_eq(e, "zig") {
        Some("Zig")
    } else if str_eq(e, "v") {
        Some("V")
    } else if str_eq(e, "cr") {
        Some("Crystal")
    } else if str_eq(e, "d") {
        Some("D")
    } else {
        None
    }
}

/// How many extensions mark `lang`.
pub open spec fn count_lang(exts: Seq<Seq<char>>, lang: Seq<char>) -> int
    decreases exts.len(),
{
    if exts.len() == 0 {
        0
    } else {
        count_lang(exts.drop_last(), lang) + (if language_of_ext(exts.last()) == Some(lang) {
            1int
        } else {
            0int
        })
    }
}

/// Some extension marks `lang`.
pub open spec fn lang_present(exts: Seq<Seq<char>>, lang: Seq<char>) -> bool {
    exists|i: int| 0 <= i < exts.len() && language_of_ext(#[trigger] exts[i]) == Some(lang)
}

/// A language no extension marks has count zero.
proof fn lemma_count_lang_zero(exts: Seq<Seq<char>>, lang: Seq<char>)
    requires
        !lang_present(exts, lang),
    ensures
        count_lang(exts, lang) == 0,
    decreases exts.len(),
{
    if exts.len() > 0 {
        if lang_present(exts.drop_last(), lang) {
            let w = choose|w: int|
                0 <= w < exts.drop_last().len() && language_of_ext(
                    #[trigger] exts.drop_last()[w],
                ) == Some(lang);
            assert(exts[w] == exts.drop_last()[w]);
            assert(false);
        }
        lemma_count_lang_zero(exts.drop_last(), lang);
        assert(language_of_ext(exts.last()) != Some(lang));
    }
}

/// A count never exceeds the number of extensions.
proof fn lemma_count_lang_le(exts: Seq<Seq<char>>, lang: Seq<char>)
    ensures
        0 <= count_lang(exts, lang) <= exts.len(),
    decreases exts.len(),
{
    if exts.len() > 0 {
        lemma_count_lang_le(exts.drop_last(), lang);
    }
}

/// Index of the first element equal to `x`, if any.
fn find_str_index(v: &Vec<String>, x: &str) -> (r: Option<usize>)
    ensures
        match r {
            Some(k) => k < v.len() && v.deep_view()[k as int] == x@,
            None => !v.deep_view().contains(x@),
        },
{
    let mut i: usize = 0;
    while i < v.len()
        invariant
            0 <= i <= v.len(),
            forall|k: int| 0 <= k < i ==> (#[trigger] v.deep_view()[k]) != x@,
        decreases v.len() - i,
    {
        if str_eq(v[i].as_str(), x) {
            proof {
                assert(v.deep_view()[i as int] == x@);
            }
            return Some(i);
        }
        i += 1;
    }
    proof {
        if v.deep_view().contains(x@) {
            let k = choose|k: int| 0 <= k < v.deep_view().len() && v.deep_view()[k] == x@;
            assert(v.deep_view()[k] != x@);
        }
    }
    None
}

/// Language of a directory, judged from the extensions of the files it
/// holds: the language marked by the most extensions wins. When several tie
/// for the most, one of them is returned; `None` when no extension marks a
/// language.
pub fn detect_project_language(extensions: &Vec<String>) -> (r: Option<String>)
    ensures
        match r {
            None => forall|i: int|
                0 <= i < extensions.deep_view().len() ==> language_of_ext(
                    #[trigger] extensions.deep_view()[i],
                ) is None,
            Some(l) => lang_present(extensions.deep_view(), l@) && forall|l2: Seq<char>| #![auto]
                lang_present(extensions.deep_view(), l2) ==> count_lang(
                    extensions.deep_view(),
                    l2,
                ) <= count_lang(extensions.deep_view(), l@),
        },
{
    let ghost exts = extensions.deep_view();
    let mut langs: Vec<String> = Vec::new();
    let mut counts: Vec<usize> = Vec::new();
    proof {
        assert(exts.take(0) =~= Seq::<Seq<char>>::empty());
    }
    let mut i: usize = 0;
    while i < extensions.len()
        invariant
            exts == extensions.deep_view(),
            0 <= i <= extensions.len(),
            langs.len() == counts.len(),
            forall|a: int, b: int|
                0 <= a < langs.deep_view().len() && 0 <= b < langs.deep_view().len() && a != b
                    ==> (#[trigger] langs.deep_view()[a]) != (#[trigger] langs.deep_view()[b]),
            forall|a: int|
                0 <= a < langs.deep_view().len() ==> lang_present(
                    exts.take(i as int),
                    #[trigger] langs.deep_view()[a],
                ),
            forall|a: int|
                0 <= a < counts@.len() ==> (#[trigger] counts@[a]) as int == count_lang(
                    exts.take(i as int),
                    langs.deep_view()[a],
                ),
            forall|l2: Seq<char>| #![auto]
                lang_present(exts.take(i as int), l2) ==> langs.deep_view().contains(l2),
        decreases extensions.len() - i,
    {
        proof {
            assert(exts.take(i as int + 1).drop_last() =~= exts.take(i as int));
            assert(exts.take(i as int + 1).last() == exts[i as int]);
        }
        let ghost prev_langs = langs.deep_view();
        match ext_language(extensions[i].as_str()) {
            None => {
                proof {
                    assert(language_of_ext(exts[i as int]) is None);
                    assert forall|l2: Seq<char>| #![auto]
                        lang_present(exts.take(i as int + 1), l2) implies langs.deep_view()
                        .contains(l2) by {
                        let w = choose|w: int|
                            0 <= w < exts.take(i as int + 1).len() && language_of_ext(
                                #[trigger] exts.take(i as int + 1)[w],
                            ) == Some(l2);
                        assert(exts.take(i as int + 1)[w] == exts[w]);
                        if w < i {
                            assert(exts.take(i as int)[w] == exts[w]);
                            assert(lang_present(exts.take(i as int), l2));
                        }
                    }
                    assert forall|a: int| 0 <= a < langs.deep_view().len() implies lang_present(
                        exts.take(i as int + 1),
                        #[trigger] langs.deep_view()[a],
                    ) by {
                        let w = choose|w: int|
                            0 <= w < exts.take(i as int).len() && language_of_ext(
                                #[trigger] exts.take(i as int)[w],
                            ) == Some(langs.deep_view()[a]);
                        assert(exts.take(i as int + 1)[w] == exts.take(i as int)[w]);
                    }
                }
            },
            Some(l) => {
                proof {
                    assert(language_of_ext(exts[i as int]) == Some(l@));
                }
                match find_str_index(&langs, l) {
                    Some(k) => {
                        let c = counts[k];
                        proof {
                            lemma_count_lang_le(exts.take(i as int), langs.deep_view()[k as int]);
                        }
                        let slot = &mut counts[k];
                        *slot = c + 1;
                        proof {
                            assert(langs.deep_view()[k as int] == l@);
                            assert(langs.deep_view().contains(l@));
                        }
                    },
                    None => {
                        proof {
                            if lang_present(exts.take(i as int), l@) {
                                assert(langs.deep_view().contains(l@));
                                let w = choose|w: int|
                                    0 <= w < prev_langs.len() && prev_langs[w] == l@;
                                assert(prev_langs[w] != l@);
                            }
                            lemma_count_lang_zero(exts.take(i as int), l@);
                        }
                        langs.push(String::from_str(l));
                        counts.push(1);
                        proof {
                            assert(langs.deep_view() =~= prev_langs.push(l@));
                            assert(langs.deep_view()[prev_langs.len() as int] == l@);
                            assert(langs.deep_view().contains(l@));
                        }
                    },
                }
                proof {
                    assert forall|a: int| 0 <= a < langs.deep_view().len() implies lang_present(
                        exts.take(i as int + 1),
                        #[trigger] langs.deep_view()[a],
                    ) by {
                        if langs.deep_view()[a] == l@ {
                            assert(exts.take(i as int + 1)[i as int] == exts[i as int]);
                        } else {
                            assert(prev_langs[a] == langs.deep_view()[a]);
                            let w = choose|w: int|
                                0 <= w < exts.take(i as int).len() && language_of_ext(
                                    #[trigger] exts.take(i as int)[w],
                                ) == Some(langs.deep_view()[a]);
                            assert(exts.take(i as int + 1)[w] == exts.take(i as int)[w]);
                        }
                    }
                    assert forall|l2: Seq<char>| #![auto]
                        lang_present(exts.take(i as int + 1), l2) implies langs.deep_view()
                        .contains(l2) by {
                        let w = choose|w: int|
                            0 <= w < exts.take(i as int + 1).len() && language_of_ext(
                                #[trigger] exts.take(i as int + 1)[w],
                            ) == Some(l2);
                        assert(exts.take(i as int + 1)[w] == exts[w]);
                        if w < i {
                            assert(exts.take(i as int)[w] == exts[w]);
                            assert(lang_present(exts.take(i as int), l2));
                            assert(prev_langs.contains(l2));
                            let u = choose|u: int| 0 <= u < prev_langs.len() && prev_langs[u] == l2;
                            assert(langs.deep_view()[u] == l2);
                        } else {
                            assert(l2 == l@);
                            assert(langs.deep_view().contains(l@));
                        }
                    }
                }
            },
        }
        i += 1;
    }
    proof {
        assert(exts.take(exts.len() as int) =~= exts);
    }
    if langs.len() == 0 {
        proof {
            assert forall|t: int| 0 <= t < exts.len() implies language_of_ext(
                #[trigger] exts[t],
            ) is None by {
                if language_of_ext(exts[t]) is Some {
                    let l2 = language_of_ext(exts[t])->Some_0;
                    assert(lang_present(exts, l2));
                    assert(langs.deep_view().contains(l2));
                    let u = choose|u: int|
                        0 <= u < langs.deep_view().len() && langs.deep_view()[u] == l2;
                }
            }
        }
        return None;
    }
    let mut best: usize = 0;
    let mut j: usize = 1;
    while j < langs.len()
        invariant
            langs.len() == counts.len(),
            0 < langs.len(),
            best < j <= langs.len() || (best == 0 && j <= langs.len()),
            best < langs.len(),
            forall|k: int| 0 <= k < j ==> (#[trigger] counts@[k]) <= counts@[best as int],
        decreases langs.len() - j,
    {
        if counts[j] > counts[best] {
            best = j;
        }
        j += 1;
    }
    let result = langs[best].clone();
    proof {
        assert forall|l2: Seq<char>| #![auto] lang_present(exts, l2) implies count_lang(exts, l2)
            <= count_lang(exts, langs.deep_view()[best as int]) by {
            assert(langs.deep_view().contains(l2));
            let k = choose|k: int| 0 <= k < langs.deep_view().len() && langs.deep_view()[k] == l2;
            assert(counts@[k] as int == count_lang(exts, l2));
            assert(counts@[k] <= counts@[best as int]);
        }
    }
    Some(result)
}

} // verus!
