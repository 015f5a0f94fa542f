//! Code segmentation: source files are parsed with a `tree_sitter` grammar
//! chosen by file extension, and every named leaf of the syntax tree becomes
//! a segment.

use vstd::prelude::*;
use vstd::string::StringSliceAdditionalSpecFns;
use vstd::utf8::*;

use crate::chunking::{PartKind, Segment};
use crate::text::{all_white_space, lemma_trim_chars, push_char, str_get, text_equals, trim};

verus! {

broadcast use vstd::utf8::group_utf8_lib;

/// A grammar (`tree_sitter::Language`).
#[verifier::external_type_specification]
#[verifier::external_body]
pub struct ExLanguage(tree_sitter::Language);

/// A parser (`tree_sitter::Parser`).
#[verifier::external_type_specification]
#[verifier::external_body]
pub struct ExParser(tree_sitter::Parser);

/// A syntax tree (`tree_sitter::Tree`).
#[verifier::external_type_specification]
#[verifier::external_body]
pub struct ExTree(tree_sitter::Tree);

/// A node of a syntax tree (`tree_sitter::Node`).
#[verifier::external_type_specification]
#[verifier::external_body]
pub struct ExNode<'tree>(tree_sitter::Node<'tree>);

/// The languages with a bundled grammar.
#[derive(Clone, Copy, Debug, PartialEq, Eq, Structural)]
pub enum CodeLanguage {
    /// Bash and POSIX shell.
    Bash,
    /// C.
    C,
    /// C++.
    Cpp,
    /// Containerfiles and Dockerfiles.
    Containerfile,
    /// C#.
    CSharp,
    /// CSS.
    Css,
    /// Dart.
    Dart,
    /// Go.
    Go,
    /// GraphQL.
    Graphql,
    /// Groovy and Gradle scripts.
    Groovy,
    /// HCL and Terraform.
    Hcl,
    /// HTML.
    Html,
    /// Java.
    Java,
    /// JavaScript and JSX.
    JavaScript,
    /// JSON.
    Json,
    /// Lua.
    Lua,
    /// Markdown.
    Markdown,
    /// PHP.
    Php,
    /// Python.
    Python,
    /// Ruby.
    Ruby,
    /// Rust.
    Rust,
    /// Scala.
    Scala,
    /// SCSS.
    Scss,
    /// SQL.
    Sql,
    /// Svelte.
    Svelte,
    /// Swift.
    Swift,
    /// TypeScript.
    TypeScript,
    /// TypeScript with JSX.
    Tsx,
    /// YAML.
    Yaml,
}

/// A character lowercased if it is an ASCII capital letter.
pub open spec fn ascii_lower_char(c: char) -> char {
    if 'A' <= c <= 'Z' {
        (((c as u32) + 32) as u32) as char
    } else {
        c
    }
}

/// A text with its ASCII capital letters lowercased (`str::to_ascii_lowercase`).
pub open spec fn ascii_lowercase(s: Seq<char>) -> Seq<char> {
    s.map_values(|c: char| ascii_lower_char(c))
}

/// Whether a text, ASCII-lowercased, is the given lowercase text.
fn lowercase_equals(text: &str, lower: &str) -> (same: bool)
    ensures
        same == (ascii_lowercase(text@) == lower@),
{
    let chars = crate::text::char_vec(text);
    let expected = crate::text::char_vec(lower);
    if chars.len() != expected.len() {
        assert(ascii_lowercase(text@).len() != lower@.len());
        return false;
    }
    let mut i: usize = 0;
    while i < chars.len()
        invariant
            chars@ == text@,
            expected@ == lower@,
            chars@.len() == expected@.len(),
            i <= chars@.len(),
            forall|k: int| 0 <= k < i ==> ascii_lower_char(#[trigger] chars@[k]) == expected@[k],
        decreases chars@.len() - i,
    {
        let c = chars[i];
        let d = expected[i];
        let same = if 'A' <= c && c <= 'Z' {
            let lowered: u32 = (c as u32) + 32;
            proof {
                let code: u32 = d as u32;
                char_u32_cast(d, code);
            }
            lowered == (d as u32)
        } else {
            c == d
        };
        if !same {
            assert(ascii_lowercase(text@)[i as int] != lower@[i as int]);
            return false;
        }
        i = i + 1;
    }
    assert(ascii_lowercase(text@) =~= lower@);
    true
}

/// The language a lowercase file extension selects.
pub open spec fn extension_language(extension: Seq<char>) -> Option<CodeLanguage> {
    if extension == "bash"@ || extension == "sh"@ {
        Some(CodeLanguage::Bash)
    } else if extension == "c"@ {
        Some(CodeLanguage::C)
    } else if extension == "cpp"@ {
        Some(CodeLanguage::Cpp)
    } else if extension == "containerfile"@ || extension == "dockerfile"@ {
        Some(CodeLanguage::Containerfile)
    } else if extension == "cs"@ {
        Some(CodeLanguage::CSharp)
    } else if extension == "css"@ {
        Some(CodeLanguage::Css)
    } else if extension == "dart"@ {
        Some(CodeLanguage::Dart)
    } else if extension == "go"@ {
        Some(CodeLanguage::Go)
    } else if extension == "graphql"@ || extension == "gql"@ {
        Some(CodeLanguage::Graphql)
    } else if extension == "groovy"@ || extension == "gradle"@ {
        Some(CodeLanguage::Groovy)
    } else if extension == "hcl"@ || extension == "tf"@ || extension == "terraform"@ {
        Some(CodeLanguage::Hcl)
    } else if extension == "html"@ {
        Some(CodeLanguage::Html)
    } else if extension == "java"@ {
        Some(CodeLanguage::Java)
    } else if extension == "js"@ || extension == "jsx"@ {
        Some(CodeLanguage::JavaScript)
    } else if extension == "json"@ {
        Some(CodeLanguage::Json)
    } else if extension == "lua"@ {
        Some(CodeLanguage::Lua)
    } else if extension == "md"@ || extension == "markdown"@ {
        Some(CodeLanguage::Markdown)
    } else if extension == "php"@ {
        Some(CodeLanguage::Php)
    } else if extension == "py"@ {
        Some(CodeLanguage::Python)
    } else if extension == "rb"@ || extension == "ruby"@ {
        Some(CodeLanguage::Ruby)
    } else if extension == "rs"@ {
        Some(CodeLanguage::Rust)
    } else if extension == "scala"@ || extension == "sc"@ {
        Some(CodeLanguage::Scala)
    } else if extension == "scss"@ {
        Some(CodeLanguage::Scss)
    } else if extension == "sql"@ {
        Some(CodeLanguage::Sql)
    } else if extension == "svelte"@ {
        Some(CodeLanguage::Svelte)
    } else if extension == "swift"@ {
        Some(CodeLanguage::Swift)
    } else if extension == "ts"@ {
        Some(CodeLanguage::TypeScript)
    } else if extension == "tsx"@ {
        Some(CodeLanguage::Tsx)
    } else if extension == "yaml"@ || extension == "yml"@ {
        Some(CodeLanguage::Yaml)
    } else {
        None
    }
}

/// Resolves the language of a file extension, ignoring ASCII case.
pub fn language_for_extension(file_extension: &str) -> (language: Option<CodeLanguage>)
    ensures
        language == extension_language(ascii_lowercase(file_extension@)),
{
    let e = file_extension;
    if lowercase_equals(e, "bash") || lowercase_equals(e, "sh") {
        Some(CodeLanguage::Bash)
    } else if lowercase_equals(e, "c") {
        Some(CodeLanguage::C)
    } else if lowercase_equals(e, "cpp") {
        Some(CodeLanguage::Cpp)
    } else if lowercase_equals(e, "containerfile") || lowercase_equals(e, "dockerfile") {
        Some(CodeLanguage::Containerfile)
    } else if lowercase_equals(e, "cs") {
        Some(CodeLanguage::CSharp)
    } else if lowercase_equals(e, "css") {
        Some(CodeLanguage::Css)
    } else if lowercase_equals(e, "dart") {
        Some(CodeLanguage::Dart)
    } else if lowercase_equals(e, "go") {
        Some(CodeLanguage::Go)
    } else if lowercase_equals(e, "graphql") || lowercase_equals(e, "gql") {
        Some(CodeLanguage::Graphql)
    } else if lowercase_equals(e, "groovy") || lowercase_equals(e, "gradle") {
        Some(CodeLanguage::Groovy)
    } else if lowercase_equals(e, "hcl") || lowercase_equals(e, "tf") || lowercase_equals(
        e,
        "terraform",
    ) {
        Some(CodeLanguage::Hcl)
    } else if lowercase_equals(e, "html") {
        Some(CodeLanguage::Html)
    } else if lowercase_equals(e, "java") {
        Some(CodeLanguage::Java)
    } else if lowercase_equals(e, "js") || lowercase_equals(e, "jsx") {
        Some(CodeLanguage::JavaScript)
    } else if lowercase_equals(e, "json") {
        Some(CodeLanguage::Json)
    } else if lowercase_equals(e, "lua") {
        Some(CodeLanguage::Lua)
    } else if lowercase_equals(e, "md") || lowercase_equals(e, "markdown") {
        Some(CodeLanguage::Markdown)
    } else if lowercase_equals(e, "php") {
        Some(CodeLanguage::Php)
    } else if lowercase_equals(e, "py") {
        Some(CodeLanguage::Python)
    } else if lowercase_equals(e, "rb") || lowercase_equals(e, "ruby") {
        Some(CodeLanguage::Ruby)
    } else if lowercase_equals(e, "rs") {
        Some(CodeLanguage::Rust)
    } else if lowercase_equals(e, "scala") || lowercase_equals(e, "sc") {
        Some(CodeLanguage::Scala)
    } else if lowercase_equals(e, "scss") {
        Some(CodeLanguage::Scss)
    } else if lowercase_equals(e, "sql") {
        Some(CodeLanguage::Sql)
    } else if lowercase_equals(e, "svelte") {
        Some(CodeLanguage::Svelte)
    } else if lowercase_equals(e, "swift") {
        Some(CodeLanguage::Swift)
    } else if lowercase_equals(e, "ts") {
        Some(CodeLanguage::TypeScript)
    } else if lowercase_equals(e, "tsx") {
        Some(CodeLanguage::Tsx)
    } else if lowercase_equals(e, "yaml") || lowercase_equals(e, "yml") {
        Some(CodeLanguage::Yaml)
    } else {
        None
    }
}

/// Whether a file extension, if any, has a supported grammar.
pub open spec fn supported_extension(file_extension: Option<Seq<char>>) -> bool {
    match file_extension {
        Some(e) => extension_language(ascii_lowercase(e)) is Some,
        None => false,
    }
}

/// Returns whether an extension has a supported syntax grammar.
pub fn supports_code_extension(file_extension: Option<&str>) -> (supported: bool)
    ensures
        supported == supported_extension(
            match file_extension {
                Some(e) => Some(e@),
                None => None,
            },
        ),
{
    match file_extension {
        Some(e) => language_for_extension(e).is_some(),
        None => false,
    }
}

/// A bundled grammar together with the language it belongs to.
struct Grammar {
    language: tree_sitter::Language,
    code: CodeLanguage,
}

/// The grammar of `tree_sitter_bash` (`tree_sitter_bash::LANGUAGE`).,
/// tagged with the language it parses.
#[verifier::external_body]
fn bash_grammar() -> (loaded: Grammar)
    ensures
        loaded.code == CodeLanguage::Bash,
{
    Grammar { language: tree_sitter_bash::LANGUAGE.into(), code: CodeLanguage::Bash }
}

/// The grammar of `tree_sitter_c` (`tree_sitter_c::LANGUAGE`).,
/// tagged with the language it parses.
#[verifier::external_body]
fn c_grammar() -> (loaded: Grammar)
    ensures
        loaded.code == CodeLanguage::C,
{
    Grammar { language: tree_sitter_c::LANGUAGE.into(), code: CodeLanguage::C }
}

/// The grammar of `tree_sitter_cpp` (`tree_sitter_cpp::LANGUAGE`).,
/// tagged with the language it parses.
#[verifier::external_body]
fn cpp_grammar() -> (loaded: Grammar)
    ensures
        loaded.code == CodeLanguage::Cpp,
{
    Grammar { language: tree_sitter_cpp::LANGUAGE.into(), code: CodeLanguage::Cpp }
}

/// The grammar of `tree_sitter_containerfile` (`tree_sitter_containerfile::LANGUAGE`).,
/// tagged with the language it parses.
#[verifier::external_body]
fn containerfile_grammar() -> (loaded: Grammar)
    ensures
        loaded.code == CodeLanguage::Containerfile,
{
    Grammar { language: tree_sitter_containerfile::LANGUAGE.into(), code: CodeLanguage::Containerfile }
}

/// The grammar of `tree_sitter_c_sharp` (`tree_sitter_c_sharp::LANGUAGE`).,
/// tagged with the language it parses.
#[verifier::external_body]
fn c_sharp_grammar() -> (loaded: Grammar)
    ensures
        loaded.code == CodeLanguage::CSharp,
{
    Grammar { language: tree_sitter_c_sharp::LANGUAGE.into(), code: CodeLanguage::CSharp }
}

/// The grammar of `tree_sitter_css` (`tree_sitter_css::LANGUAGE`).,
/// tagged with the language it parses.
#[verifier::external_body]
fn css_grammar() -> (loaded: Grammar)
    ensures
        loaded.code == CodeLanguage::Css,
{
    Grammar { language: tree_sitter_css::LANGUAGE.into(), code: CodeLanguage::Css }
}

/// The grammar of `tree_sitter_dart` (`tree_sitter_dart::LANGUAGE`).,
/// tagged with the language it parses.
#[verifier::external_body]
fn dart_grammar() -> (loaded: Grammar)
    ensures
        loaded.code == CodeLanguage::Dart,
{
    Grammar { language: tree_sitter_dart::LANGUAGE.into(), code: CodeLanguage::Dart }
}

/// The grammar of `tree_sitter_go` (`tree_sitter_go::LANGUAGE`).,
/// tagged with the language it parses.
#[verifier::external_body]
fn go_grammar() -> (loaded: Grammar)
    ensures
        loaded.code == CodeLanguage::Go,
{
    Grammar { language: tree_sitter_go::LANGUAGE.into(), code: CodeLanguage::Go }
}

/// The grammar of `tree_sitter_graphql` (`tree_sitter_graphql::LANGUAGE`).,
/// tagged with the language it parses.
#[verifier::external_body]
fn graphql_grammar() -> (loaded: Grammar)
    ensures
        loaded.code == CodeLanguage::Graphql,
{
    Grammar { language: tree_sitter_graphql::LANGUAGE.into(), code: CodeLanguage::Graphql }
}

/// The grammar of `tree_sitter_groovy` (`tree_sitter_groovy::LANGUAGE`).,
/// tagged with the language it parses.
#[verifier::external_body]
fn groovy_grammar() -> (loaded: Grammar)
    ensures
        loaded.code == CodeLanguage::Groovy,
{
    Grammar { language: tree_sitter_groovy::LANGUAGE.into(), code: CodeLanguage::Groovy }
}

/// The grammar of `tree_sitter_hcl` (`tree_sitter_hcl::LANGUAGE`).,
/// tagged with the language it parses.
#[verifier::external_body]
fn hcl_grammar() -> (loaded: Grammar)
    ensures
        loaded.code == CodeLanguage::Hcl,
{
    Grammar { language: tree_sitter_hcl::LANGUAGE.into(), code: CodeLanguage::Hcl }
}

/// The grammar of `tree_sitter_html` (`tree_sitter_html::LANGUAGE`).,
/// tagged with the language it parses.
#[verifier::external_body]
fn html_grammar() -> (loaded: Grammar)
    ensures
        loaded.code == CodeLanguage::Html,
{
    Grammar { language: tree_sitter_html::LANGUAGE.into(), code: CodeLanguage::Html }
}

/// The grammar of `tree_sitter_java` (`tree_sitter_java::LANGUAGE`).,
/// tagged with the language it parses.
#[verifier::external_body]
fn java_grammar() -> (loaded: Grammar)
    ensures
        loaded.code == CodeLanguage::Java,
{
    Grammar { language: tree_sitter_java::LANGUAGE.into(), code: CodeLanguage::Java }
}

/// The grammar of `tree_sitter_javascript` (`tree_sitter_javascript::LANGUAGE`).,
/// tagged with the language it parses.
#[verifier::external_body]
fn javascript_grammar() -> (loaded: Grammar)
    ensures
        loaded.code == CodeLanguage::JavaScript,
{
    Grammar { language: tree_sitter_javascript::LANGUAGE.into(), code: CodeLanguage::JavaScript }
}

/// The grammar of `tree_sitter_json` (`tree_sitter_json::LANGUAGE`).,
/// tagged with the language it parses.
#[verifier::external_body]
fn json_grammar() -> (loaded: Grammar)
    ensures
        loaded.code == CodeLanguage::Json,
{
    Grammar { language: tree_sitter_json::LANGUAGE.into(), code: CodeLanguage::Json }
}

/// The grammar of `tree_sitter_lua` (`tree_sitter_lua::LANGUAGE`).,
/// tagged with the language it parses.
#[verifier::external_body]
fn lua_grammar() -> (loaded: Grammar)
    ensures
        loaded.code == CodeLanguage::Lua,
{
    Grammar { language: tree_sitter_lua::LANGUAGE.into(), code: CodeLanguage::Lua }
}

/// The grammar of `tree_sitter_md` (`tree_sitter_md::LANGUAGE`).,
/// tagged with the language it parses.
#[verifier::external_body]
fn markdown_grammar() -> (loaded: Grammar)
    ensures
        loaded.code == CodeLanguage::Markdown,
{
    Grammar { language: tree_sitter_md::LANGUAGE.into(), code: CodeLanguage::Markdown }
}

/// The grammar of `tree_sitter_php` (`tree_sitter_php::LANGUAGE_PHP`).,
/// tagged with the language it parses.
#[verifier::external_body]
fn php_grammar() -> (loaded: Grammar)
    ensures
        loaded.code == CodeLanguage::Php,
{
    Grammar { language: tree_sitter_php::LANGUAGE_PHP.into(), code: CodeLanguage::Php }
}

/// The grammar of `tree_sitter_python` (`tree_sitter_python::LANGUAGE`).,
/// tagged with the language it parses.
#[verifier::external_body]
fn python_grammar() -> (loaded: Grammar)
    ensures
        loaded.code == CodeLanguage::Python,
{
    Grammar { language: tree_sitter_python::LANGUAGE.into(), code: CodeLanguage::Python }
}

/// The grammar of `tree_sitter_ruby` (`tree_sitter_ruby::LANGUAGE`).,
/// tagged with the language it parses.
#[verifier::external_body]
fn ruby_grammar() -> (loaded: Grammar)
    ensures
        loaded.code == CodeLanguage::Ruby,
{
    Grammar { language: tree_sitter_ruby::LANGUAGE.into(), code: CodeLanguage::Ruby }
}

/// The grammar of `tree_sitter_rust` (`tree_sitter_rust::LANGUAGE`).,
/// tagged with the language it parses.
#[verifier::external_body]
fn rust_grammar() -> (loaded: Grammar)
    ensures
        loaded.code == CodeLanguage::Rust,
{
    Grammar { language: tree_sitter_rust::LANGUAGE.into(), code: CodeLanguage::Rust }
}

/// The grammar of `tree_sitter_scala` (`tree_sitter_scala::LANGUAGE`).,
/// tagged with the language it parses.
#[verifier::external_body]
fn scala_grammar() -> (loaded: Grammar)
    ensures
        loaded.code == CodeLanguage::Scala,
{
    Grammar { language: tree_sitter_scala::LANGUAGE.into(), code: CodeLanguage::Scala }
}

/// The grammar of `tree_sitter_scss` (its `language()`).,
/// tagged with the language it parses.
#[verifier::external_body]
fn scss_grammar() -> (loaded: Grammar)
    ensures
        loaded.code == CodeLanguage::Scss,
{
    Grammar { language: tree_sitter_scss::language(), code: CodeLanguage::Scss }
}

/// The grammar of `tree_sitter_sequel` (`tree_sitter_sequel::LANGUAGE`).,
/// tagged with the language it parses.
#[verifier::external_body]
fn sql_grammar() -> (loaded: Grammar)
    ensures
        loaded.code == CodeLanguage::Sql,
{
    Grammar { language: tree_sitter_sequel::LANGUAGE.into(), code: CodeLanguage::Sql }
}

/// The grammar of `tree_sitter_svelte_next` (`tree_sitter_svelte_next::LANGUAGE`).,
/// tagged with the language it parses.
#[verifier::external_body]
fn svelte_grammar() -> (loaded: Grammar)
    ensures
        loaded.code == CodeLanguage::Svelte,
{
    Grammar { language: tree_sitter_svelte_next::LANGUAGE.into(), code: CodeLanguage::Svelte }
}

/// The grammar of `tree_sitter_swift` (`tree_sitter_swift::LANGUAGE`).,
/// tagged with the language it parses.
#[verifier::external_body]
fn swift_grammar() -> (loaded: Grammar)
    ensures
        loaded.code == CodeLanguage::Swift,
{
    Grammar { language: tree_sitter_swift::LANGUAGE.into(), code: CodeLanguage::Swift }
}

/// The grammar of `tree_sitter_typescript` (`tree_sitter_typescript::LANGUAGE_TYPESCRIPT`).,
/// tagged with the language it parses.
#[verifier::external_body]
fn typescript_grammar() -> (loaded: Grammar)
    ensures
        loaded.code == CodeLanguage::TypeScript,
{
    Grammar { language: tree_sitter_typescript::LANGUAGE_TYPESCRIPT.into(), code: CodeLanguage::TypeScript }
}

/// The grammar of `tree_sitter_typescript` (`tree_sitter_typescript::LANGUAGE_TSX`).,
/// tagged with the language it parses.
#[verifier::external_body]
fn tsx_grammar() -> (loaded: Grammar)
    ensures
        loaded.code == CodeLanguage::Tsx,
{
    Grammar { language: tree_sitter_typescript::LANGUAGE_TSX.into(), code: CodeLanguage::Tsx }
}

/// The grammar of `tree_sitter_yaml` (`tree_sitter_yaml::LANGUAGE`).,
/// tagged with the language it parses.
#[verifier::external_body]
fn yaml_grammar() -> (loaded: Grammar)
    ensures
        loaded.code == CodeLanguage::Yaml,
{
    Grammar { language: tree_sitter_yaml::LANGUAGE.into(), code: CodeLanguage::Yaml }
}

/// The bundled grammar of a language.
fn grammar(language: CodeLanguage) -> (loaded: Grammar)
    ensures
        loaded.code == language,
{
    match language {
        CodeLanguage::Bash => bash_grammar(),
        CodeLanguage::C => c_grammar(),
        CodeLanguage::Cpp => cpp_grammar(),
        CodeLanguage::Containerfile => containerfile_grammar(),
        CodeLanguage::CSharp => c_sharp_grammar(),
        CodeLanguage::Css => css_grammar(),
        CodeLanguage::Dart => dart_grammar(),
        CodeLanguage::Go => go_grammar(),
        CodeLanguage::Graphql => graphql_grammar(),
        CodeLanguage::Groovy => groovy_grammar(),
        CodeLanguage::Hcl => hcl_grammar(),
        CodeLanguage::Html => html_grammar(),
        CodeLanguage::Java => java_grammar(),
        CodeLanguage::JavaScript => javascript_grammar(),
        CodeLanguage::Json => json_grammar(),
        CodeLanguage::Lua => lua_grammar(),
        CodeLanguage::Markdown => markdown_grammar(),
        CodeLanguage::Php => php_grammar(),
        CodeLanguage::Python => python_grammar(),
        CodeLanguage::Ruby => ruby_grammar(),
        CodeLanguage::Rust => rust_grammar(),
        CodeLanguage::Scala => scala_grammar(),
        CodeLanguage::Scss => scss_grammar(),
        CodeLanguage::Sql => sql_grammar(),
        CodeLanguage::Svelte => svelte_grammar(),
        CodeLanguage::Swift => swift_grammar(),
        CodeLanguage::TypeScript => typescript_grammar(),
        CodeLanguage::Tsx => tsx_grammar(),
        CodeLanguage::Yaml => yaml_grammar(),
    }
}

/// Whether the parser accepts the bundled grammar of a language
/// (`Parser::set_language` refuses a grammar whose ABI version the library
/// does not support).
pub uninterp spec fn grammar_loads(language: CodeLanguage) -> bool;

/// `Node::has_error` of the node reached from the root of the syntax tree of
/// `text` by the named-child indexes `path`.
pub uninterp spec fn subtree_has_error(language: CodeLanguage, text: Seq<char>, path: Seq<u32>) -> bool;

/// `Node::is_named` of the node at `path`.
pub uninterp spec fn named_at(language: CodeLanguage, text: Seq<char>, path: Seq<u32>) -> bool;

/// `Node::named_child_count` of the node at `path`.
pub uninterp spec fn named_child_count_at(language: CodeLanguage, text: Seq<char>, path: Seq<u32>) -> usize;

/// `Node::byte_range` of the node at `path`, as its start and end offsets.
pub uninterp spec fn byte_range_at(language: CodeLanguage, text: Seq<char>, path: Seq<u32>) -> (usize, usize);

/// `Node::descendant_count` of the node at `path`: the nodes of its subtree,
/// itself included.
pub uninterp spec fn descendant_count_at(language: CodeLanguage, text: Seq<char>, path: Seq<u32>) -> usize;

/// `Parser::new`: a parser without a language.
#[verifier::external_body]
fn new_parser() -> tree_sitter::Parser {
    tree_sitter::Parser::new()
}

/// `Parser::set_language` with a bundled grammar: whether it was accepted.
/// Whether it is depends on the grammar alone.
#[verifier::external_body]
fn set_parser_language(parser: &mut tree_sitter::Parser, grammar: &Grammar) -> (loaded: bool)
    ensures
        loaded == grammar_loads(grammar.code),
{
    parser.set_language(&grammar.language).is_ok()
}

/// A parser that holds the grammar of `code`.
struct LoadedParser {
    parser: tree_sitter::Parser,
    code: CodeLanguage,
}

/// A syntax tree of `source` under the grammar of `code`.
struct SyntaxTree<'a> {
    tree: tree_sitter::Tree,
    code: CodeLanguage,
    source: &'a str,
}

/// A node of a syntax tree of `source` under the grammar of `code`, reached
/// from the root by taking the named child at each index of `path`.
struct SyntaxNode<'t> {
    node: tree_sitter::Node<'t>,
    code: CodeLanguage,
    source: &'t str,
    path: Vec<u32>,
}

/// `Parser::parse` with no previous tree, on a parser that holds a grammar:
/// the syntax tree of `text`. It returns `None` only when no grammar is set
/// or a timeout or cancellation stops it, and neither is set here.
#[verifier::external_body]
fn parse_text<'a>(parser: &mut LoadedParser, text: &'a str) -> (tree: Option<SyntaxTree<'a>>)
    ensures
        tree is Some,
        tree matches Some(t) ==> t.code == old(parser).code && t.source == text,
{
    match parser.parser.parse(text, None) {
        Some(tree) => Some(SyntaxTree { tree, code: parser.code, source: text }),
        None => None,
    }
}

/// `Tree::root_node`: the node at the empty path.
#[verifier::external_body]
fn root_node<'t>(tree: &'t SyntaxTree<'_>) -> (root: SyntaxNode<'t>)
    ensures
        root.code == tree.code,
        root.source == tree.source,
        root.path@ == Seq::<u32>::empty(),
{
    SyntaxNode { node: tree.tree.root_node(), code: tree.code, source: tree.source, path: Vec::new() }
}

/// `Node::has_error`: whether the node's subtree holds a syntax error.
#[verifier::external_body]
fn node_has_error(node: &SyntaxNode) -> (error: bool)
    ensures
        error == subtree_has_error(node.code, node.source@, node.path@),
{
    node.node.has_error()
}

/// `Node::parent`: the root alone has none.
#[verifier::external_body]
fn node_parent<'t>(node: &SyntaxNode<'t>) -> (parent: Option<tree_sitter::Node<'t>>)
    ensures
        parent is Some <==> node.path@.len() > 0,
{
    node.node.parent()
}

/// `Node::is_named`: whether the node is named in the grammar rather than
/// anonymous punctuation.
#[verifier::external_body]
fn node_is_named(node: &SyntaxNode) -> (named: bool)
    ensures
        named == named_at(node.code, node.source@, node.path@),
{
    node.node.is_named()
}

/// `Node::named_child_count`, which the library computes as a `u32`.
#[verifier::external_body]
fn node_named_child_count(node: &SyntaxNode) -> (count: usize)
    ensures
        count == named_child_count_at(node.code, node.source@, node.path@),
        count <= u32::MAX,
{
    node.node.named_child_count()
}

/// `Node::named_child`: the named child at an index, present exactly below
/// the named child count, as the node at `path`, which extends the node's
/// path by the index. A child's subtree is a proper part of its parent's,
/// so it has fewer nodes.
#[verifier::external_body]
fn node_named_child<'t>(node: &SyntaxNode<'t>, index: u32, path: Vec<u32>) -> (child: Option<SyntaxNode<'t>>)
    requires
        path@ == node.path@.push(index),
    ensures
        child is Some <==> index < named_child_count_at(node.code, node.source@, node.path@),
        child matches Some(c) ==> {
            &&& c.code == node.code
            &&& c.source == node.source
            &&& c.path@ == path@
            &&& descendant_count_at(c.code, c.source@, c.path@) < descendant_count_at(
                node.code,
                node.source@,
                node.path@,
            )
        },
{
    match node.node.named_child(index) {
        Some(child) => Some(SyntaxNode { node: child, code: node.code, source: node.source, path }),
        None => None,
    }
}

/// `Node::descendant_count`: the nodes of the node's subtree, itself
/// included.
#[verifier::external_body]
fn node_descendant_count(node: &SyntaxNode) -> (count: usize)
    ensures
        count == descendant_count_at(node.code, node.source@, node.path@),
{
    node.node.descendant_count()
}

/// `Node::byte_range`, as its start and end offsets.
#[verifier::external_body]
fn node_byte_range(node: &SyntaxNode) -> (range: (usize, usize))
    ensures
        range == byte_range_at(node.code, node.source@, node.path@),
{
    let range = node.node.byte_range();
    (range.start, range.end)
}

/// Builds a syntax tree for source content: `None` when the parser refuses
/// the grammar or does not complete.
fn syntax_tree<'a>(content: &'a str, language: CodeLanguage) -> (tree: Option<SyntaxTree<'a>>)
    ensures
        tree is Some <==> grammar_loads(language),
        tree matches Some(t) ==> t.code == language && t.source == content,
{
    let mut parser = new_parser();
    let grammar = grammar(language);
    if !set_parser_language(&mut parser, &grammar) {
        return None;
    }
    let mut loaded = LoadedParser { parser, code: language };
    parse_text(&mut loaded, content)
}

/// Returns whether a syntax node contains named children.
fn has_named_children(node: &SyntaxNode) -> (found: bool)
    ensures
        found == (named_child_count_at(node.code, node.source@, node.path@) > 0),
{
    node_named_child_count(node) > 0
}

/// Whether the node at `path` is a named leaf: a named node other than the
/// root without named children.
pub open spec fn is_named_leaf(language: CodeLanguage, text: Seq<char>, path: Seq<u32>) -> bool {
    &&& path.len() > 0
    &&& named_at(language, text, path)
    &&& named_child_count_at(language, text, path) == 0
}

/// The byte ranges of the named leaves at or below the node at `path`, in
/// document order.
pub open spec fn leaf_ranges(language: CodeLanguage, text: Seq<char>, path: Seq<u32>) -> Seq<(usize, usize)>
    decreases descendant_count_at(language, text, path), named_child_count_at(language, text, path) + 1,
{
    if is_named_leaf(language, text, path) {
        seq![byte_range_at(language, text, path)]
    } else {
        children_leaf_ranges(language, text, path, 0)
    }
}

/// The byte ranges of the named leaves below the named children of the node
/// at `path`, from the child at `index` on. (A child's subtree always has
/// fewer nodes than its parent's; the test only bounds the recursion.)
pub open spec fn children_leaf_ranges(
    language: CodeLanguage,
    text: Seq<char>,
    path: Seq<u32>,
    index: nat,
) -> Seq<(usize, usize)>
    decreases descendant_count_at(language, text, path), named_child_count_at(language, text, path) - index,
{
    if index < named_child_count_at(language, text, path) {
        let child = path.push(index as u32);
        let first = if descendant_count_at(language, text, child) < descendant_count_at(language, text, path) {
            leaf_ranges(language, text, child)
        } else {
            Seq::empty()
        };
        first + children_leaf_ranges(language, text, path, index + 1)
    } else {
        Seq::empty()
    }
}

/// Collects the byte ranges of named leaf nodes below `node`, in document
/// order: a named node other than the root that has no named children is a
/// leaf; any other node contributes the leaves of its named children.
///
/// `size` is the number of nodes of `node`'s subtree, which bounds the
/// recursion.
fn collect_leaf_named_ranges(node: &SyntaxNode, size: usize, ranges: &mut Vec<(usize, usize)>)
    requires
        size == descendant_count_at(node.code, node.source@, node.path@),
    ensures
        final(ranges)@ == old(ranges)@ + leaf_ranges(node.code, node.source@, node.path@),
    decreases size,
{
    let ghost code = node.code;
    let ghost text = node.source@;
    let ghost path = node.path@;
    if node_parent(node).is_some() && node_is_named(node) && !has_named_children(node) {
        ranges.push(node_byte_range(node));
        return;
    }
    let count = node_named_child_count(node);
    let mut index: usize = 0;
    while index < count
        invariant
            code == node.code,
            text == node.source@,
            path == node.path@,
            size == descendant_count_at(code, text, path),
            count == named_child_count_at(code, text, path),
            count <= u32::MAX,
            index <= count,
            !is_named_leaf(code, text, path),
            old(ranges)@ + leaf_ranges(code, text, path) == ranges@ + children_leaf_ranges(
                code,
                text,
                path,
                index as nat,
            ),
        decreases count - index,
    {
        let mut child_path = node.path.clone();
        child_path.push(index as u32);
        let child = node_named_child(node, index as u32, child_path);
        if let Some(child) = child {
            let ghost before = ranges@;
            let child_size = node_descendant_count(&child);
            collect_leaf_named_ranges(&child, child_size, ranges);
            proof {
                let child_path = path.push(index as u32);
                assert(child.path@ == child_path);
                let rest = children_leaf_ranges(code, text, path, (index + 1) as nat);
                assert(children_leaf_ranges(code, text, path, index as nat) == leaf_ranges(
                    code,
                    text,
                    child_path,
                ) + rest);
                assert(before + (leaf_ranges(code, text, child_path) + rest) =~= (before + leaf_ranges(
                    code,
                    text,
                    child_path,
                )) + rest);
            }
        }
        index = index + 1;
    }
    proof {
        assert(children_leaf_ranges(code, text, path, index as nat) =~= Seq::<(usize, usize)>::empty());
        assert(ranges@ + Seq::<(usize, usize)>::empty() =~= ranges@);
    }
}

/// Whether a byte range of the content yields a segment: it lies on
/// character boundaries in order, and its text is not all whitespace.
pub open spec fn keeps_range(bytes: Seq<u8>, range: (usize, usize)) -> bool {
    &&& range.0 <= range.1 <= bytes.len()
    &&& is_char_boundary(bytes, range.0 as int)
    &&& is_char_boundary(bytes, range.1 as int)
    &&& !all_white_space(decode_utf8(bytes.subrange(range.0 as int, range.1 as int)))
}

/// The ranges that yield segments, in order.
pub open spec fn kept_ranges(bytes: Seq<u8>, ranges: Seq<(usize, usize)>) -> Seq<(usize, usize)> {
    ranges.filter(|range: (usize, usize)| keeps_range(bytes, range))
}

/// Whether a segment is the code segment of a byte range of the content.
pub open spec fn code_segment_of(segment: Segment, bytes: Seq<u8>, range: (usize, usize)) -> bool {
    &&& segment.kind == PartKind::Code
    &&& segment.byte_range.start == range.0
    &&& segment.byte_range.end == range.1
    &&& segment.text.spec_bytes() == bytes.subrange(range.0 as int, range.1 as int)
}

/// Whether `segments` are the code segments of the byte ranges of the
/// content that yield one, in order, and `None` when no range does.
pub open spec fn segments_of_ranges<'a>(
    segments: Option<Vec<Segment<'a>>>,
    bytes: Seq<u8>,
    ranges: Seq<(usize, usize)>,
) -> bool {
    let kept = kept_ranges(bytes, ranges);
    match segments {
        None => kept.len() == 0,
        Some(found) => {
            &&& kept.len() > 0
            &&& found@.len() == kept.len()
            &&& forall|i: int| 0 <= i < kept.len() ==> code_segment_of(#[trigger] found@[i], bytes, kept[i])
        },
    }
}

/// Turns collected byte ranges into code segments: ranges that do not lie
/// on character boundaries of the content, and all-whitespace texts, are
/// left out; no segment at all gives `None`.
pub fn segments_from_ranges<'a>(content: &'a str, ranges: &Vec<(usize, usize)>) -> (segments: Option<Vec<Segment<'a>>>)
    ensures
        segments_of_ranges(segments, content.spec_bytes(), ranges@),
{
    let ghost bytes = content.spec_bytes();
    let mut segments: Vec<Segment<'a>> = Vec::new();
    let mut i: usize = 0;
    while i < ranges.len()
        invariant
            bytes == content.spec_bytes(),
            i <= ranges@.len(),
            segments@.len() == kept_ranges(bytes, ranges@.take(i as int)).len(),
            forall|k: int|
                0 <= k < segments@.len() ==> code_segment_of(
                    #[trigger] segments@[k],
                    bytes,
                    kept_ranges(bytes, ranges@.take(i as int))[k],
                ),
        decreases ranges@.len() - i,
    {
        let range = ranges[i];
        let ghost before = ranges@.take(i as int);
        proof {
            assert(ranges@.take(i + 1) =~= before.push(range));
            before.lemma_filter_push(range, |r: (usize, usize)| keeps_range(bytes, r));
        }
        match str_get(content, range.0, range.1) {
            Some(text) => {
                let trimmed = trim(text);
                proof {
                    lemma_trim_chars(text@);
                    assert(decode_utf8(bytes.subrange(range.0 as int, range.1 as int)) == text@);
                }
                if !trimmed.is_empty() {
                    segments.push(
                        Segment {
                            text,
                            kind: PartKind::Code,
                            byte_range: std::ops::Range { start: range.0, end: range.1 },
                        },
                    );
                }
            },
            None => {},
        }
        i = i + 1;
    }
    assert(ranges@.take(ranges@.len() as int) =~= ranges@);
    if segments.len() == 0 {
        return None;
    }
    Some(segments)
}

/// The leaf ranges that code segmentation works from: `None` when the
/// extension has no grammar, the parser refuses the grammar, or the syntax
/// tree holds an error; else the byte ranges of the
/// named leaves of the tree.
pub open spec fn parsed_leaf_ranges(text: Seq<char>, file_extension: Option<Seq<char>>) -> Option<Seq<(usize, usize)>> {
    match file_extension {
        None => None,
        Some(extension) => match extension_language(ascii_lowercase(extension)) {
            None => None,
            Some(language) => if grammar_loads(language) && !subtree_has_error(language, text, Seq::empty()) {
                Some(leaf_ranges(language, text, Seq::empty()))
            } else {
                None
            },
        },
    }
}

/// Extracts structured code segments when language support exists: the
/// named leaves of the syntax tree, when the extension has a grammar and the
/// content parses without errors.
pub fn segment_code<'a>(content: &'a str, file_extension: Option<&str>) -> (segments: Option<Vec<Segment<'a>>>)
    ensures
        match parsed_leaf_ranges(
            content@,
            match file_extension {
                Some(e) => Some(e@),
                None => None,
            },
        ) {
            None => segments is None,
            Some(ranges) => segments_of_ranges(segments, content.spec_bytes(), ranges),
        },
        segments matches Some(found) ==> found@.len() > 0 && forall|i: int|
            0 <= i < found@.len() ==> code_segment_in(#[trigger] found@[i], content.spec_bytes()),
{
    let extension = match file_extension {
        None => {
            return None;
        },
        Some(extension) => extension,
    };
    let language = match language_for_extension(extension) {
        None => {
            return None;
        },
        Some(language) => language,
    };
    let tree = match syntax_tree(content, language) {
        None => {
            return None;
        },
        Some(tree) => tree,
    };
    let root = root_node(&tree);
    if node_has_error(&root) {
        return None;
    }
    let mut ranges: Vec<(usize, usize)> = Vec::new();
    let size = node_descendant_count(&root);
    collect_leaf_named_ranges(&root, size, &mut ranges);
    assert(ranges@ =~= leaf_ranges(language, content@, Seq::empty()));
    let segments = segments_from_ranges(content, &ranges);
    proof {
        if segments is Some {
            let found = segments->0;
            let kept = kept_ranges(content.spec_bytes(), ranges@);
            assert forall|i: int| 0 <= i < found@.len() implies code_segment_in(
                #[trigger] found@[i],
                content.spec_bytes(),
            ) by {
                assert(code_segment_of(found@[i], content.spec_bytes(), kept[i]));
                ranges@.lemma_filter_pred(|r: (usize, usize)| keeps_range(content.spec_bytes(), r), i);
            }
        }
    }
    segments
}

/// Whether a segment is a code segment of the content: its text is the
/// content's bytes in its byte range, and not all whitespace.
pub open spec fn code_segment_in(segment: Segment, bytes: Seq<u8>) -> bool {
    &&& segment.kind == PartKind::Code
    &&& segment.byte_range.start <= segment.byte_range.end <= bytes.len()
    &&& segment.text.spec_bytes() == bytes.subrange(
        segment.byte_range.start as int,
        segment.byte_range.end as int,
    )
    &&& !all_white_space(segment.text@)
}

/// Extensions that differ only in ASCII case select the same language, and
/// so segment any content alike.
pub proof fn extension_case_is_ignored(a: Seq<char>, b: Seq<char>, content: Seq<char>)
    requires
        ascii_lowercase(a) == ascii_lowercase(b),
    ensures
        extension_language(ascii_lowercase(a)) == extension_language(ascii_lowercase(b)),
        supported_extension(Some(a)) == supported_extension(Some(b)),
        parsed_leaf_ranges(content, Some(a)) == parsed_leaf_ranges(content, Some(b)),
{
}

/// Every language with a bundled grammar is reached from a file extension:
/// some lowercase extension resolves to it, whatever its case.
pub proof fn every_language_has_an_extension(language: CodeLanguage)
    ensures
        exists|extension: Seq<char>|
            #![trigger extension_language(extension)]
            ascii_lowercase(extension) == extension && extension_language(extension) == Some(language),
{
    reveal_strlit("bash");
    reveal_strlit("sh");
    reveal_strlit("c");
    reveal_strlit("cpp");
    reveal_strlit("containerfile");
    reveal_strlit("dockerfile");
    reveal_strlit("cs");
    reveal_strlit("css");
    reveal_strlit("dart");
    reveal_strlit("go");
    reveal_strlit("graphql");
    reveal_strlit("gql");
    reveal_strlit("groovy");
    reveal_strlit("gradle");
    reveal_strlit("hcl");
    reveal_strlit("tf");
    reveal_strlit("terraform");
    reveal_strlit("html");
    reveal_strlit("java");
    reveal_strlit("js");
    reveal_strlit("jsx");
    reveal_strlit("json");
    reveal_strlit("lua");
    reveal_strlit("md");
    reveal_strlit("markdown");
    reveal_strlit("php");
    reveal_strlit("py");
    reveal_strlit("rb");
    reveal_strlit("ruby");
    reveal_strlit("rs");
    reveal_strlit("scala");
    reveal_strlit("sc");
    reveal_strlit("scss");
    reveal_strlit("sql");
    reveal_strlit("svelte");
    reveal_strlit("swift");
    reveal_strlit("ts");
    reveal_strlit("tsx");
    reveal_strlit("yaml");
    reveal_strlit("yml");
    match language {
        CodeLanguage::Bash => {
            assert(ascii_lowercase("bash"@) =~= "bash"@);
            assert(extension_language("bash"@) == Some(language));
        },
        CodeLanguage::C => {
            assert(ascii_lowercase("c"@) =~= "c"@);
            assert(extension_language("c"@) == Some(language));
        },
        CodeLanguage::Cpp => {
            assert(ascii_lowercase("cpp"@) =~= "cpp"@);
            assert(extension_language("cpp"@) == Some(language));
        },
        CodeLanguage::Containerfile => {
            assert(ascii_lowercase("containerfile"@) =~= "containerfile"@);
            assert(extension_language("containerfile"@) == Some(language));
        },
        CodeLanguage::CSharp => {
            assert("cs"@[0] != "sh"@[0]);
            assert(ascii_lowercase("cs"@) =~= "cs"@);
            assert(extension_language("cs"@) == Some(language));
        },
        CodeLanguage::Css => {
            assert("css"@[1] != "cpp"@[1]);
            assert(ascii_lowercase("css"@) =~= "css"@);
            assert(extension_language("css"@) == Some(language));
        },
        CodeLanguage::Dart => {
            assert("dart"@[0] != "bash"@[0]);
            assert(ascii_lowercase("dart"@) =~= "dart"@);
            assert(extension_language("dart"@) == Some(language));
        },
        CodeLanguage::Go => {
            assert("go"@[0] != "sh"@[0]);
            assert("go"@[0] != "cs"@[0]);
            assert(ascii_lowercase("go"@) =~= "go"@);
            assert(extension_language("go"@) == Some(language));
        },
        CodeLanguage::Graphql => {
            assert(ascii_lowercase("graphql"@) =~= "graphql"@);
            assert(extension_language("graphql"@) == Some(language));
        },
        CodeLanguage::Groovy => {
            assert(ascii_lowercase("groovy"@) =~= "groovy"@);
            assert(extension_language("groovy"@) == Some(language));
        },
        CodeLanguage::Hcl => {
            assert("hcl"@[0] != "cpp"@[0]);
            assert("hcl"@[0] != "css"@[0]);
            assert("hcl"@[0] != "gql"@[0]);
            assert(ascii_lowercase("hcl"@) =~= "hcl"@);
            assert(extension_language("hcl"@) == Some(language));
        },
        CodeLanguage::Html => {
            assert("html"@[0] != "bash"@[0]);
            assert("html"@[0] != "dart"@[0]);
            assert(ascii_lowercase("html"@) =~= "html"@);
            assert(extension_language("html"@) == Some(language));
        },
        CodeLanguage::Java => {
            assert("java"@[0] != "bash"@[0]);
            assert("java"@[0] != "dart"@[0]);
            assert("java"@[0] != "html"@[0]);
            assert(ascii_lowercase("java"@) =~= "java"@);
            assert(extension_language("java"@) == Some(language));
        },
        CodeLanguage::JavaScript => {
            assert("js"@[0] != "sh"@[0]);
            assert("js"@[0] != "cs"@[0]);
            assert("js"@[0] != "go"@[0]);
            assert("js"@[0] != "tf"@[0]);
            assert(ascii_lowercase("js"@) =~= "js"@);
            assert(extension_language("js"@) == Some(language));
        },
        CodeLanguage::Json => {
            assert("json"@[0] != "bash"@[0]);
            assert("json"@[0] != "dart"@[0]);
            assert("json"@[0] != "html"@[0]);
            assert("json"@[1] != "java"@[1]);
            assert(ascii_lowercase("json"@) =~= "json"@);
            assert(extension_language("json"@) == Some(language));
        },
        CodeLanguage::Lua => {
            assert("lua"@[0] != "cpp"@[0]);
            assert("lua"@[0] != "css"@[0]);
            assert("lua"@[0] != "gql"@[0]);
            assert("lua"@[0] != "hcl"@[0]);
            assert("lua"@[0] != "jsx"@[0]);
            assert(ascii_lowercase("lua"@) =~= "lua"@);
            assert(extension_language("lua"@) == Some(language));
        },
        CodeLanguage::Markdown => {
            assert("md"@[0] != "sh"@[0]);
            assert("md"@[0] != "cs"@[0]);
            assert("md"@[0] != "go"@[0]);
            assert("md"@[0] != "tf"@[0]);
            assert("md"@[0] != "js"@[0]);
            assert(ascii_lowercase("md"@) =~= "md"@);
            assert(extension_language("md"@) == Some(language));
        },
        CodeLanguage::Php => {
            assert("php"@[0] != "cpp"@[0]);
            assert("php"@[0] != "css"@[0]);
            assert("php"@[0] != "gql"@[0]);
            assert("php"@[0] != "hcl"@[0]);
            assert("php"@[0] != "jsx"@[0]);
            assert("php"@[0] != "lua"@[0]);
            assert(ascii_lowercase("php"@) =~= "php"@);
            assert(extension_language("php"@) == Some(language));
        },
        CodeLanguage::Python => {
            assert("py"@[0] != "sh"@[0]);
            assert("py"@[0] != "cs"@[0]);
            assert("py"@[0] != "go"@[0]);
            assert("py"@[0] != "tf"@[0]);
            assert("py"@[0] != "js"@[0]);
            assert("py"@[0] != "md"@[0]);
            assert(ascii_lowercase("py"@) =~= "py"@);
            assert(extension_language("py"@) == Some(language));
        },
        CodeLanguage::Ruby => {
            assert("rb"@[0] != "sh"@[0]);
            assert("rb"@[0] != "cs"@[0]);
            assert("rb"@[0] != "go"@[0]);
            assert("rb"@[0] != "tf"@[0]);
            assert("rb"@[0] != "js"@[0]);
            assert("rb"@[0] != "md"@[0]);
            assert("rb"@[0] != "py"@[0]);
            assert(ascii_lowercase("rb"@) =~= "rb"@);
            assert(extension_language("rb"@) == Some(language));
        },
        CodeLanguage::Rust => {
            assert("rs"@[0] != "sh"@[0]);
            assert("rs"@[0] != "cs"@[0]);
            assert("rs"@[0] != "go"@[0]);
            assert("rs"@[0] != "tf"@[0]);
            assert("rs"@[0] != "js"@[0]);
            assert("rs"@[0] != "md"@[0]);
            assert("rs"@[0] != "py"@[0]);
            assert("rs"@[1] != "rb"@[1]);
            assert(ascii_lowercase("rs"@) =~= "rs"@);
            assert(extension_language("rs"@) == Some(language));
        },
        CodeLanguage::Scala => {
            assert(ascii_lowercase("scala"@) =~= "scala"@);
            assert(extension_language("scala"@) == Some(language));
        },
        CodeLanguage::Scss => {
            assert("scss"@[0] != "bash"@[0]);
            assert("scss"@[0] != "dart"@[0]);
            assert("scss"@[0] != "html"@[0]);
            assert("scss"@[0] != "java"@[0]);
            assert("scss"@[0] != "json"@[0]);
            assert("scss"@[0] != "ruby"@[0]);
            assert(ascii_lowercase("scss"@) =~= "scss"@);
            assert(extension_language("scss"@) == Some(language));
        },
        CodeLanguage::Sql => {
            assert("sql"@[0] != "cpp"@[0]);
            assert("sql"@[0] != "css"@[0]);
            assert("sql"@[0] != "gql"@[0]);
            assert("sql"@[0] != "hcl"@[0]);
            assert("sql"@[0] != "jsx"@[0]);
            assert("sql"@[0] != "lua"@[0]);
            assert("sql"@[0] != "php"@[0]);
            assert(ascii_lowercase("sql"@) =~= "sql"@);
            assert(extension_language("sql"@) == Some(language));
        },
        CodeLanguage::Svelte => {
            assert("svelte"@[0] != "groovy"@[0]);
            assert("svelte"@[0] != "gradle"@[0]);
            assert(ascii_lowercase("svelte"@) =~= "svelte"@);
            assert(extension_language("svelte"@) == Some(language));
        },
        CodeLanguage::Swift => {
            assert("swift"@[1] != "scala"@[1]);
            assert(ascii_lowercase("swift"@) =~= "swift"@);
            assert(extension_language("swift"@) == Some(language));
        },
        CodeLanguage::TypeScript => {
            assert("ts"@[0] != "sh"@[0]);
            assert("ts"@[0] != "cs"@[0]);
            assert("ts"@[0] != "go"@[0]);
            assert("ts"@[1] != "tf"@[1]);
            assert("ts"@[0] != "js"@[0]);
            assert("ts"@[0] != "md"@[0]);
            assert("ts"@[0] != "py"@[0]);
            assert("ts"@[0] != "rb"@[0]);
            assert("ts"@[0] != "rs"@[0]);
            assert("ts"@[0] != "sc"@[0]);
            assert(ascii_lowercase("ts"@) =~= "ts"@);
            assert(extension_language("ts"@) == Some(language));
        },
        CodeLanguage::Tsx => {
            assert("tsx"@[0] != "cpp"@[0]);
            assert("tsx"@[0] != "css"@[0]);
            assert("tsx"@[0] != "gql"@[0]);
            assert("tsx"@[0] != "hcl"@[0]);
            assert("tsx"@[0] != "jsx"@[0]);
            assert("tsx"@[0] != "lua"@[0]);
            assert("tsx"@[0] != "php"@[0]);
            assert("tsx"@[0] != "sql"@[0]);
            assert(ascii_lowercase("tsx"@) =~= "tsx"@);
            assert(extension_language("tsx"@) == Some(language));
        },
        CodeLanguage::Yaml => {
            assert("yaml"@[0] != "bash"@[0]);
            assert("yaml"@[0] != "dart"@[0]);
            assert("yaml"@[0] != "html"@[0]);
            assert("yaml"@[0] != "java"@[0]);
            assert("yaml"@[0] != "json"@[0]);
            assert("yaml"@[0] != "ruby"@[0]);
            assert("yaml"@[0] != "scss"@[0]);
            assert(ascii_lowercase("yaml"@) =~= "yaml"@);
            assert(extension_language("yaml"@) == Some(language));
        },
    }
}

} // verus!
