use vstd::prelude::*;
use yaml_rust::{Yaml, YamlLoader};

verus! {

/// A node of a structured-text document: a scalar, a sequence, a mapping or null.
/// Mapping entries keep the order in which the document lists them.
#[derive(Debug)]
pub enum Doc {
    /// A floating-point scalar, kept as its source text.
    Real(String),
    Integer(i64),
    Text(String),
    Boolean(bool),
    Array(Vec<Doc>),
    Hash(Vec<(Doc, Doc)>),
    /// A reference to an anchored node, by anchor number.
    Alias(usize),
    Null,
    /// A node that the parser could not give a value to.
    BadValue,
}

#[verifier::external_type_specification]
#[verifier::external_body]
pub struct ExYaml(Yaml);

/// The longest line, in characters, that the loader takes. The parser nests
/// once per level of indentation and, in flow style, up to 255 more levels, so
/// a bound on line length bounds its recursion depth.
pub const MAX_LINE_LEN: usize = 256;

/// The length of the line fragment that ends just before position `i`.
pub open spec fn line_run(s: Seq<char>, i: int) -> nat
    decreases i,
{
    if i <= 0 || s[i - 1] == '\n' {
        0
    } else {
        line_run(s, i - 1) + 1
    }
}

/// Whether no line of `s` is longer than `n` characters.
pub open spec fn lines_within(s: Seq<char>, n: nat) -> bool {
    forall|i: int| 0 <= i <= s.len() ==> #[trigger] line_run(s, i) <= n
}

/// Whether no line of `text` is longer than `MAX_LINE_LEN` characters.
pub fn lines_fit(text: &str) -> (r: bool)
    ensures
        r == lines_within(text@, MAX_LINE_LEN as nat),
{
    let n = text.unicode_len();
    let mut run: usize = 0;
    let mut i: usize = 0;
    while i < n
        invariant
            n == text@.len(),
            i <= n,
            run == line_run(text@, i as int),
            forall|k: int| 0 <= k <= i ==> #[trigger] line_run(text@, k) <= MAX_LINE_LEN,
        decreases n - i,
    {
        if text.get_char(i) == '\n' {
            run = 0;
        } else {
            run = run + 1;
            if run > MAX_LINE_LEN {
                assert(line_run(text@, i + 1) > MAX_LINE_LEN);
                return false;
            }
        }
        i = i + 1;
    }
    true
}

/// The documents that a YAML text holds, or `None` where the text is not valid YAML.
pub uninterp spec fn yaml_documents(text: Seq<char>) -> Option<Seq<Doc>>;

/// Relies on yaml_rust::YamlLoader::load_from_str: it parses the whole text into
/// its documents, in order, or fails on malformed text; the outcome depends on the
/// text alone. Each parsed node is carried over variant for variant. The parser
/// and the conversion recurse once per nesting level, so the line length, which
/// bounds the block nesting, is kept small enough for the stack.
#[verifier::external_body]
pub(crate) fn load_yaml(text: &str) -> (r: Option<Vec<Doc>>)
    requires
        lines_within(text@, MAX_LINE_LEN as nat),
    ensures
        match r {
            Some(docs) => yaml_documents(text@) == Some(docs@),
            None => yaml_documents(text@) is None,
        },
{
    match YamlLoader::load_from_str(text) {
        Ok(docs) => Some(docs.iter().map(doc_from_yaml).collect()),
        Err(_) => None,
    }
}

/// Carries a parsed `yaml_rust::Yaml` node over to a `Doc`, one variant for each.
/// It recurses as deep as the node nests, which `load_yaml`'s bound on line
/// length keeps small.
#[verifier::external_body]
fn doc_from_yaml(y: &Yaml) -> Doc {
    match y {
        Yaml::Real(s) => Doc::Real(s.clone()),
        Yaml::Integer(n) => Doc::Integer(*n),
        Yaml::String(s) => Doc::Text(s.clone()),
        Yaml::Boolean(b) => Doc::Boolean(*b),
        Yaml::Array(a) => Doc::Array(a.iter().map(doc_from_yaml).collect()),
        Yaml::Hash(h) => Doc::Hash(h.iter().map(|(k, v)| (doc_from_yaml(k), doc_from_yaml(v))).collect()),
        Yaml::Alias(n) => Doc::Alias(*n),
        Yaml::Null => Doc::Null,
        Yaml::BadValue => Doc::BadValue,
    }
}

} // verus!
