//! The languages the tool parses and the file extensions each claims.
use crate::paths::{extension_of, path_extension};
use crate::go_adapter::{is_go_result, GoAdapter};
use crate::py_adapter::{is_py_result, PyAdapter};
use crate::c_adapter::{is_c_result, CAdapter};
use crate::cpp_adapter::{is_cpp_result, CppAdapter};
use crate::csharp_adapter::{is_csharp_result, CSharpAdapter};
use crate::dart_adapter::{is_dart_result, DartAdapter};
use crate::rust_adapter::{is_rust_result, RustAdapter};
use crate::swift_adapter::{is_swift_result, SwiftAdapter};
use crate::zig_adapter::{is_zig_result, ZigAdapter};
use crate::syntax::{
    c_syntax, cpp_syntax, csharp_syntax, dart_syntax, go_syntax, javascript_syntax, python_syntax, rust_syntax,
    swift_syntax, typescript_syntax, zig_syntax,
};
use crate::text::{contains_text, owned, str_eq, views};
use crate::ts_adapter::{is_js_path, is_ts_result, TsAdapter};
use crate::types::FileResult;
use vstd::prelude::*;

verus! {

/// A language adapter as the registry knows it: its name and the file
/// extensions it handles.
#[derive(Debug, Clone, PartialEq)]
pub struct LanguageSpec {
    pub name: String,
    pub extensions: Vec<String>,
}

/// The registered language adapters, in registration order.
#[derive(Debug, Clone, PartialEq)]
pub struct AdapterRegistry {
    adapters: Vec<LanguageSpec>,
}

/// A registered adapter seen as text: its name and extensions.
pub type SpecView = (Seq<char>, Seq<Seq<char>>);

impl View for AdapterRegistry {
    type V = Seq<SpecView>;

    closed spec fn view(&self) -> Seq<SpecView> {
        self.adapters@.map_values(|a: LanguageSpec| (a.name@, views(a.extensions@)))
    }
}

/// The position of the first adapter that claims extension `ext`.
pub open spec fn first_claiming(adapters: Seq<SpecView>, ext: Seq<char>, n: nat) -> Option<int>
    decreases n,
{
    if n == 0 {
        None
    } else {
        match first_claiming(adapters, ext, (n - 1) as nat) {
            Some(i) => Some(i),
            None => if adapters[n - 1].1.contains(ext) {
                Some(n - 1)
            } else {
                None
            },
        }
    }
}

/// The extension a file is dispatched by (empty when it has none).
pub open spec fn dispatch_extension(path: Seq<char>) -> Seq<char> {
    match path_extension(path) {
        Some(e) => e,
        None => Seq::<char>::empty(),
    }
}

impl AdapterRegistry {
    /// An empty registry.
    pub fn new() -> (r: Self)
        ensures
            r@ == Seq::<SpecView>::empty(),
    {
        let r = AdapterRegistry { adapters: Vec::new() };
        assert(r@ =~= Seq::<SpecView>::empty());
        r
    }

    /// Registers an adapter after those already registered.
    pub fn register(&mut self, adapter: LanguageSpec)
        ensures
            final(self)@ == old(self)@.push((adapter.name@, views(adapter.extensions@))),
    {
        let ghost before = self.adapters@;
        self.adapters.push(adapter);
        assert(self.adapters@.map_values(|a: LanguageSpec| (a.name@, views(a.extensions@))) =~= before.map_values(
            |a: LanguageSpec| (a.name@, views(a.extensions@)),
        ).push((self.adapters@.last().name@, views(self.adapters@.last().extensions@))));
    }

    /// The adapter that handles a file: the first one registered that
    /// claims the file's extension.
    pub fn find_adapter(&self, file_path: &str) -> (r: Option<&LanguageSpec>)
        ensures
            match first_claiming(self@, dispatch_extension(file_path@), self@.len()) {
                Some(i) => r matches Some(a) && (a.name@, views(a.extensions@)) == self@[i],
                None => r is None,
            },
    {
        let ext = match extension_of(file_path) {
            Some(e) => e,
            None => String::new(),
        };
        let ghost v = self@;
        let mut i: usize = 0;
        while i < self.adapters.len()
            invariant
                i <= self.adapters.len(),
                v == self@,
                v.len() == self.adapters@.len(),
                ext@ == dispatch_extension(file_path@),
                first_claiming(v, ext@, i as nat) is None,
            decreases self.adapters.len() - i,
        {
            assert(v[i as int] == (self.adapters@[i as int].name@, views(self.adapters@[i as int].extensions@)));
            if contains_text(&self.adapters[i].extensions, ext.as_str()) {
                proof {
                    lemma_first_claiming_stays(v, ext@, (i + 1) as nat, v.len());
                }
                return Some(&self.adapters[i]);
            }
            i = i + 1;
        }
        None
    }

    /// The registered adapters, in registration order.
    pub fn adapters(&self) -> (r: &Vec<LanguageSpec>)
        ensures
            r@.map_values(|a: LanguageSpec| (a.name@, views(a.extensions@))) == self@,
    {
        &self.adapters
    }
}

proof fn lemma_first_claiming_stays(adapters: Seq<SpecView>, ext: Seq<char>, n: nat, m: nat)
    requires
        n <= m,
        first_claiming(adapters, ext, n) is Some,
    ensures
        first_claiming(adapters, ext, m) == first_claiming(adapters, ext, n),
    decreases m - n,
{
    if n < m {
        lemma_first_claiming_stays(adapters, ext, n, (m - 1) as nat);
    }
}

/// The built-in languages with their extensions, in registration order.
pub open spec fn builtin_languages() -> Seq<SpecView> {
    seq![
        ("typescript"@, seq!["ts"@, "tsx"@, "js"@, "jsx"@]),
        ("python"@, seq!["py"@, "pyi"@]),
        ("go"@, seq!["go"@]),
        ("rust"@, seq!["rs"@]),
        ("dart"@, seq!["dart"@]),
        ("java"@, seq!["java"@]),
        ("kotlin"@, seq!["kt"@, "kts"@]),
        ("swift"@, seq!["swift"@]),
        ("c"@, seq!["c"@, "h"@]),
        ("cpp"@, seq!["cpp"@, "cc"@, "cxx"@, "hpp"@, "h"@, "hh"@, "hxx"@]),
        ("csharp"@, seq!["cs"@]),
        ("zig"@, seq!["zig"@]),
    ]
}

/// Registers every built-in language: TypeScript/JavaScript, Python, Go,
/// Rust, Dart, Java, Kotlin, Swift, C, C++, C# and Zig, in that order, each
/// with the extensions it claims.
pub fn register_all_adapters() -> (r: AdapterRegistry)
    ensures
        r@ == builtin_languages(),
        r@.len() == 12,
        r@.map_values(|a: SpecView| a.0) == seq![
            "typescript"@, "python"@, "go"@, "rust"@, "dart"@, "java"@, "kotlin"@, "swift"@, "c"@, "cpp"@,
            "csharp"@, "zig"@,
        ],
{
    let mut r = AdapterRegistry::new();
    let exts = vec![owned("ts"), owned("tsx"), owned("js"), owned("jsx")];
    assert(views(exts@) =~= seq!["ts"@, "tsx"@, "js"@, "jsx"@]);
    r.register(LanguageSpec { name: owned("typescript"), extensions: exts });
    let exts = vec![owned("py"), owned("pyi")];
    assert(views(exts@) =~= seq!["py"@, "pyi"@]);
    r.register(LanguageSpec { name: owned("python"), extensions: exts });
    let exts = vec![owned("go")];
    assert(views(exts@) =~= seq!["go"@]);
    r.register(LanguageSpec { name: owned("go"), extensions: exts });
    let exts = vec![owned("rs")];
    assert(views(exts@) =~= seq!["rs"@]);
    r.register(LanguageSpec { name: owned("rust"), extensions: exts });
    let exts = vec![owned("dart")];
    assert(views(exts@) =~= seq!["dart"@]);
    r.register(LanguageSpec { name: owned("dart"), extensions: exts });
    let exts = vec![owned("java")];
    assert(views(exts@) =~= seq!["java"@]);
    r.register(LanguageSpec { name: owned("java"), extensions: exts });
    let exts = vec![owned("kt"), owned("kts")];
    assert(views(exts@) =~= seq!["kt"@, "kts"@]);
    r.register(LanguageSpec { name: owned("kotlin"), extensions: exts });
    let exts = vec![owned("swift")];
    assert(views(exts@) =~= seq!["swift"@]);
    r.register(LanguageSpec { name: owned("swift"), extensions: exts });
    let exts = vec![owned("c"), owned("h")];
    assert(views(exts@) =~= seq!["c"@, "h"@]);
    r.register(LanguageSpec { name: owned("c"), extensions: exts });
    let exts = vec![owned("cpp"), owned("cc"), owned("cxx"), owned("hpp"), owned("h"), owned("hh"), owned("hxx")];
    assert(views(exts@) =~= seq!["cpp"@, "cc"@, "cxx"@, "hpp"@, "h"@, "hh"@, "hxx"@]);
    r.register(LanguageSpec { name: owned("cpp"), extensions: exts });
    let exts = vec![owned("cs")];
    assert(views(exts@) =~= seq!["cs"@]);
    r.register(LanguageSpec { name: owned("csharp"), extensions: exts });
    let exts = vec![owned("zig")];
    assert(views(exts@) =~= seq!["zig"@]);
    r.register(LanguageSpec { name: owned("zig"), extensions: exts });
    assert(r@ =~= builtin_languages());
    assert(r@.map_values(|a: SpecView| a.0) =~= seq![
        "typescript"@, "python"@, "go"@, "rust"@, "dart"@, "java"@, "kotlin"@, "swift"@, "c"@, "cpp"@,
        "csharp"@, "zig"@,
    ]);
    r
}

/// What parsing a file with the adapter named `name` gives: the result of
/// that language's adapter, or nothing for a language without one (Java,
/// Kotlin, or a name the registry does not know).
pub open spec fn parse_outcome(name: Seq<char>, r: Option<FileResult>, source: Seq<char>, path: Seq<char>) -> bool {
    if name == "typescript"@ {
        r matches Some(x) && is_ts_result(x, path, if is_js_path(path) {
            javascript_syntax(source)
        } else {
            typescript_syntax(source)
        })
    } else if name == "python"@ {
        r matches Some(x) && is_py_result(x, path, source, python_syntax(source))
    } else if name == "go"@ {
        r matches Some(x) && is_go_result(x, path, source, go_syntax(source))
    } else if name == "rust"@ {
        r matches Some(x) && is_rust_result(x, path, source, rust_syntax(source))
    } else if name == "dart"@ {
        r matches Some(x) && is_dart_result(x, path, source, dart_syntax(source))
    } else if name == "swift"@ {
        r matches Some(x) && is_swift_result(x, path, source, swift_syntax(source))
    } else if name == "c"@ {
        r matches Some(x) && is_c_result(x, path, source, c_syntax(source))
    } else if name == "cpp"@ {
        r matches Some(x) && is_cpp_result(x, path, source, cpp_syntax(source))
    } else if name == "csharp"@ {
        r matches Some(x) && is_csharp_result(x, path, source, csharp_syntax(source))
    } else if name == "zig"@ {
        r matches Some(x) && is_zig_result(x, path, source, zig_syntax(source))
    } else {
        r is None
    }
}

/// Parses a source file with the adapter a registry entry names.  Java and
/// Kotlin are registered, so their files are claimed by extension, but no
/// grammar stands behind them: for those (and for a name the registry does
/// not know) the result is `None`.
pub fn parse_with(adapter: &LanguageSpec, source: &str, file_path: &str) -> (r: Option<FileResult>)
    ensures
        parse_outcome(adapter.name@, r, source@, file_path@),
{
    let name = adapter.name.as_str();
    if str_eq(name, "typescript") {
        Some(TsAdapter::new().parse(source, file_path))
    } else if str_eq(name, "python") {
        Some(PyAdapter::new().parse(source, file_path))
    } else if str_eq(name, "go") {
        Some(GoAdapter::new().parse(source, file_path))
    } else if str_eq(name, "rust") {
        Some(RustAdapter::new().parse(source, file_path))
    } else if str_eq(name, "dart") {
        Some(DartAdapter::new().parse(source, file_path))
    } else if str_eq(name, "swift") {
        Some(SwiftAdapter::new().parse(source, file_path))
    } else if str_eq(name, "c") {
        Some(CAdapter::new().parse(source, file_path))
    } else if str_eq(name, "cpp") {
        Some(CppAdapter::new().parse(source, file_path))
    } else if str_eq(name, "csharp") {
        Some(CSharpAdapter::new().parse(source, file_path))
    } else if str_eq(name, "zig") {
        Some(ZigAdapter::new().parse(source, file_path))
    } else {
        None
    }
}

} // verus!
