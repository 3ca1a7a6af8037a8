//! Language registry: detect a supported language from a file
//! extension and group languages into ecosystems.

use vstd::prelude::*;

use crate::strutil::{last_sep_cut, spec_basename, spec_cut, suffix_from, to_char_vec, chars_eq};

verus! {

/// Supported programming languages.
#[derive(Clone, Copy, Debug, PartialEq, Eq, Hash, Structural)]
pub enum SupportedLanguage {
    Rust,
    Python,
    JavaScript,
    TypeScript,
    Tsx,
    Go,
    Java,
    CSharp,
    Ruby,
    Cpp,
    Swift,
}

/// The extension of a path: the suffix of the basename after its last
/// dot, unless the only dot starts the basename (a hidden file) or
/// there is no dot at all.
pub open spec fn spec_extension(path: Seq<char>) -> Option<Seq<char>> {
    let base = spec_basename(path);
    let cut = spec_cut(base, '.');
    if cut <= 1 {
        None
    } else {
        Some(base.subrange(cut as int, base.len() as int))
    }
}

/// The language that an extension maps to.
pub open spec fn spec_lang_of_ext(e: Seq<char>) -> Option<SupportedLanguage> {
    if e == "rs"@ {
        Some(SupportedLanguage::Rust)
    } else if e == "py"@ || e == "pyw"@ {
        Some(SupportedLanguage::Python)
    } else if e == "js"@ || e == "mjs"@ || e == "cjs"@ {
        Some(SupportedLanguage::JavaScript)
    } else if e == "ts"@ || e == "mts"@ || e == "cts"@ {
        Some(SupportedLanguage::TypeScript)
    } else if e == "tsx"@ || e == "jsx"@ {
        Some(SupportedLanguage::Tsx)
    } else if e == "go"@ {
        Some(SupportedLanguage::Go)
    } else if e == "java"@ {
        Some(SupportedLanguage::Java)
    } else if e == "cs"@ {
        Some(SupportedLanguage::CSharp)
    } else if e == "rb"@ {
        Some(SupportedLanguage::Ruby)
    } else if e == "cpp"@ || e == "cc"@ || e == "cxx"@ || e == "hpp"@ || e == "h"@ {
        Some(SupportedLanguage::Cpp)
    } else if e == "swift"@ {
        Some(SupportedLanguage::Swift)
    } else {
        None
    }
}

/// The language a path maps to, going by its extension alone.
pub open spec fn spec_lang_of_path(path: Seq<char>) -> Option<SupportedLanguage> {
    match spec_extension(path) {
        None => None,
        Some(e) => spec_lang_of_ext(e),
    }
}

/// True for the members of the JavaScript ecosystem, which can import
/// one another.
pub open spec fn spec_js_family(l: SupportedLanguage) -> bool {
    l == SupportedLanguage::JavaScript || l == SupportedLanguage::TypeScript
        || l == SupportedLanguage::Tsx
}

/// Two languages share an ecosystem when they are equal or both belong
/// to the JavaScript family.
pub open spec fn spec_same_ecosystem(a: SupportedLanguage, b: SupportedLanguage) -> bool {
    a == b || (spec_js_family(a) && spec_js_family(b))
}

impl SupportedLanguage {
    /// Detect the language of a file from its extension.
    pub fn from_path(path: &str) -> (r: Option<SupportedLanguage>)
        ensures
            r == spec_lang_of_path(path@),
    {
        let chars = to_char_vec(path);
        let base_cut = last_sep_cut(&chars, '/');
        let base = suffix_from(&chars, base_cut);
        let dot_cut = last_sep_cut(&base, '.');
        if dot_cut <= 1 {
            return None;
        }
        let ext = suffix_from(&base, dot_cut);
        let e = &ext;
        if eq_lit(e, "rs") {
            Some(SupportedLanguage::Rust)
        } else if eq_lit(e, "py") || eq_lit(e, "pyw") {
            Some(SupportedLanguage::Python)
        } else if eq_lit(e, "js") || eq_lit(e, "mjs") || eq_lit(e, "cjs") {
            Some(SupportedLanguage::JavaScript)
        } else if eq_lit(e, "ts") || eq_lit(e, "mts") || eq_lit(e, "cts") {
            Some(SupportedLanguage::TypeScript)
        } else if eq_lit(e, "tsx") || eq_lit(e, "jsx") {
            Some(SupportedLanguage::Tsx)
        } else if eq_lit(e, "go") {
            Some(SupportedLanguage::Go)
        } else if eq_lit(e, "java") {
            Some(SupportedLanguage::Java)
        } else if eq_lit(e, "cs") {
            Some(SupportedLanguage::CSharp)
        } else if eq_lit(e, "rb") {
            Some(SupportedLanguage::Ruby)
        } else if eq_lit(e, "cpp") || eq_lit(e, "cc") || eq_lit(e, "cxx") || eq_lit(e, "hpp")
            || eq_lit(e, "h") {
            Some(SupportedLanguage::Cpp)
        } else if eq_lit(e, "swift") {
            Some(SupportedLanguage::Swift)
        } else {
            None
        }
    }

    /// The display name of this language.
    pub fn name(&self) -> (r: &'static str)
        ensures
            r@ == spec_lang_name(*self),
    {
        match self {
            SupportedLanguage::Rust => "Rust",
            SupportedLanguage::Python => "Python",
            SupportedLanguage::JavaScript => "JavaScript",
            SupportedLanguage::TypeScript => "TypeScript",
            SupportedLanguage::Tsx => "TSX",
            SupportedLanguage::Go => "Go",
            SupportedLanguage::Java => "Java",
            SupportedLanguage::CSharp => "C#",
            SupportedLanguage::Ruby => "Ruby",
            SupportedLanguage::Cpp => "C++",
            SupportedLanguage::Swift => "Swift",
        }
    }

    /// Whether two languages live in one ecosystem, so that code in one
    /// can call into code in the other.
    pub fn same_ecosystem(&self, other: &Self) -> (r: bool)
        ensures
            r == spec_same_ecosystem(*self, *other),
    {
        let a_js = self.is_js_family();
        let b_js = other.is_js_family();
        *self == *other || (a_js && b_js)
    }

    /// Whether this language belongs to the JavaScript family.
    fn is_js_family(&self) -> (r: bool)
        ensures
            r == spec_js_family(*self),
    {
        match self {
            SupportedLanguage::JavaScript => true,
            SupportedLanguage::TypeScript => true,
            SupportedLanguage::Tsx => true,
            _ => false,
        }
    }
}

/// The display name of a language.
pub open spec fn spec_lang_name(l: SupportedLanguage) -> Seq<char> {
    match l {
        SupportedLanguage::Rust => "Rust"@,
        SupportedLanguage::Python => "Python"@,
        SupportedLanguage::JavaScript => "JavaScript"@,
        SupportedLanguage::TypeScript => "TypeScript"@,
        SupportedLanguage::Tsx => "TSX"@,
        SupportedLanguage::Go => "Go"@,
        SupportedLanguage::Java => "Java"@,
        SupportedLanguage::CSharp => "C#"@,
        SupportedLanguage::Ruby => "Ruby"@,
        SupportedLanguage::Cpp => "C++"@,
        SupportedLanguage::Swift => "Swift"@,
    }
}

/// Compare an extension against a literal.
fn eq_lit(e: &Vec<char>, lit: &str) -> (r: bool)
    ensures
        r == (e@ == lit@),
{
    let l = to_char_vec(lit);
    chars_eq(e, &l)
}

} // verus!
