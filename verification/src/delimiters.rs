//! Comment delimiters: which pair of delimiters frames the header of a file,
//! chosen from the editor's language id and, failing that, the file's extension.
use vstd::prelude::*;
use vstd::string::*;
use vstd::utf8::*;
use crate::text::{chars_of, str_eq};

verus! {

/// A pair of comment delimiters that frames each header line.
#[derive(Clone, Copy, Debug, PartialEq, Eq, Structural)]
pub enum CommentStyle {
    /// `/* ` and ` */`
    Slashes,
    /// `# ` and ` #`
    Hashes,
    /// `-- ` and ` --`
    Dashes,
    /// `(* ` and ` *)`
    Parens,
    /// `%% ` and ` %%`
    Percents,
    /// `;; ` and ` ;;`
    Semicolons,
}

impl CommentStyle {
    /// The delimiter that starts each line.
    pub open spec fn left(self) -> Seq<char> {
        match self {
            CommentStyle::Slashes => "/* "@,
            CommentStyle::Hashes => "# "@,
            CommentStyle::Dashes => "-- "@,
            CommentStyle::Parens => "(* "@,
            CommentStyle::Percents => "%% "@,
            CommentStyle::Semicolons => ";; "@,
        }
    }

    /// The delimiter that ends each line.
    pub open spec fn right(self) -> Seq<char> {
        match self {
            CommentStyle::Slashes => " */"@,
            CommentStyle::Hashes => " #"@,
            CommentStyle::Dashes => " --"@,
            CommentStyle::Parens => " *)"@,
            CommentStyle::Percents => " %%"@,
            CommentStyle::Semicolons => " ;;"@,
        }
    }

    /// The left and right delimiters of this style.
    pub fn delimiters(&self) -> (r: (&'static str, &'static str))
        ensures
            r.0@ == self.left(),
            r.1@ == self.right(),
    {
        match self {
            CommentStyle::Slashes => ("/* ", " */"),
            CommentStyle::Hashes => ("# ", " #"),
            CommentStyle::Dashes => ("-- ", " --"),
            CommentStyle::Parens => ("(* ", " *)"),
            CommentStyle::Percents => ("%% ", " %%"),
            CommentStyle::Semicolons => (";; ", " ;;"),
        }
    }
}

/// The style for a language id that is already in lower case, if the id is known.
pub open spec fn language_style(id: Seq<char>) -> Option<CommentStyle> {
    if is_slash_language(id) {
        Some(CommentStyle::Slashes)
    } else if is_hash_language(id) {
        Some(CommentStyle::Hashes)
    } else if is_dash_language(id) {
        Some(CommentStyle::Dashes)
    } else if is_paren_language(id) {
        Some(CommentStyle::Parens)
    } else if is_percent_language(id) {
        Some(CommentStyle::Percents)
    } else if is_semicolon_language(id) {
        Some(CommentStyle::Semicolons)
    } else {
        None
    }
}

/// The style for a file extension; every extension not listed (among them
/// those of C-like languages) gets slashes.
pub open spec fn extension_style(ext: Seq<char>) -> CommentStyle {
    if is_hash_extension(ext) {
        CommentStyle::Hashes
    } else if is_dash_extension(ext) {
        CommentStyle::Dashes
    } else if is_paren_extension(ext) {
        CommentStyle::Parens
    } else if is_percent_extension(ext) {
        CommentStyle::Percents
    } else if is_semicolon_extension(ext) {
        CommentStyle::Semicolons
    } else {
        CommentStyle::Slashes
    }
}

/// The offset of the last `.` among the first `i` characters of `f`.
pub open spec fn last_dot_before(f: Seq<char>, i: int) -> Option<int>
    decreases i,
{
    if i <= 0 {
        None
    } else if f[i - 1] == '.' {
        Some(i - 1)
    } else {
        last_dot_before(f, i - 1)
    }
}

/// The extension of a file name: what follows its last `.`, or the whole
/// name when it has no `.`.
pub open spec fn extension_of(f: Seq<char>) -> Seq<char> {
    match last_dot_before(f, f.len() as int) {
        Some(d) => f.skip(d + 1),
        None => f,
    }
}

/// The style of a file: the one of its (lower-case) language id when the id
/// is known, else the one of its extension.
pub open spec fn style_for(lowered_id: Seq<char>, filename: Seq<char>) -> CommentStyle {
    match language_style(lowered_id) {
        Some(s) => s,
        None => extension_style(extension_of(filename)),
    }
}

/// `s` with the ASCII letters `A`..`Z` turned into `a`..`z`.
pub open spec fn ascii_lowercase(s: Seq<char>) -> Seq<char> {
    s.map_values(
        |c: char|
            if 'A' <= c && c <= 'Z' {
                ((c as u32) + 32) as char
            } else {
                c
            },
    )
}

/// A language id of the table (each one is given its style by `lemma_language_table`).
pub open spec fn known_language_id(id: Seq<char>) -> bool {
    ||| id == "c"@
    ||| id == "cpp"@
    ||| id == "c++"@
    ||| id == "css"@
    ||| id == "go"@
    ||| id == "groovy"@
    ||| id == "java"@
    ||| id == "javascript"@
    ||| id == "javascriptreact"@
    ||| id == "jsx"@
    ||| id == "less"@
    ||| id == "objective-c"@
    ||| id == "objective_c"@
    ||| id == "objc"@
    ||| id == "php"@
    ||| id == "rust"@
    ||| id == "scss"@
    ||| id == "swift"@
    ||| id == "typescript"@
    ||| id == "typescriptreact"@
    ||| id == "tsx"@
    ||| id == "xsl"@
    ||| id == "jade"@
    ||| id == "python"@
    ||| id == "ruby"@
    ||| id == "perl"@
    ||| id == "perl6"@
    ||| id == "bash"@
    ||| id == "shellscript"@
    ||| id == "shell"@
    ||| id == "shell script"@
    ||| id == "sh"@
    ||| id == "zsh"@
    ||| id == "fish"@
    ||| id == "makefile"@
    ||| id == "make"@
    ||| id == "coffeescript"@
    ||| id == "powershell"@
    ||| id == "r"@
    ||| id == "sql"@
    ||| id == "yaml"@
    ||| id == "dockerfile"@
    ||| id == "plaintext"@
    ||| id == "plain text"@
    ||| id == "toml"@
    ||| id == "gitignore"@
    ||| id == "env"@
    ||| id == "haskell"@
    ||| id == "lua"@
    ||| id == "ocaml"@
    ||| id == "fsharp"@
    ||| id == "f#"@
    ||| id == "latex"@
    ||| id == "tex"@
    ||| id == "ini"@
}

/// A file extension given another style than slashes (see `lemma_extension_table`).
pub open spec fn styled_extension(e: Seq<char>) -> bool {
    ||| e == "py"@
    ||| e == "pyw"@
    ||| e == "rb"@
    ||| e == "pl"@
    ||| e == "pm"@
    ||| e == "sh"@
    ||| e == "bash"@
    ||| e == "zsh"@
    ||| e == "fish"@
    ||| e == "mk"@
    ||| e == "makefile"@
    ||| e == "coffee"@
    ||| e == "ps1"@
    ||| e == "r"@
    ||| e == "sql"@
    ||| e == "yml"@
    ||| e == "yaml"@
    ||| e == "toml"@
    ||| e == "hs"@
    ||| e == "lua"@
    ||| e == "ml"@
    ||| e == "mli"@
    ||| e == "fs"@
    ||| e == "fsi"@
    ||| e == "fsx"@
    ||| e == "tex"@
    ||| e == "sty"@
    ||| e == "cls"@
    ||| e == "ini"@
    ||| e == "cfg"@
}

/// No `.` in `s`.
pub open spec fn no_dot(s: Seq<char>) -> bool {
    forall|i: int| 0 <= i < s.len() ==> #[trigger] s[i] != '.'
}

proof fn lemma_last_dot_at(f: Seq<char>, lo: int, k: int)
    requires
        0 <= lo < k <= f.len(),
        f[lo] == '.',
        forall|j: int| lo < j < k ==> #[trigger] f[j] != '.',
    ensures
        last_dot_before(f, k) == Some(lo),
    decreases k,
{
    if k - 1 > lo {
        lemma_last_dot_at(f, lo, k - 1);
    }
}

proof fn lemma_no_dot_before(f: Seq<char>, k: int)
    requires
        0 <= k <= f.len(),
        forall|j: int| 0 <= j < k ==> #[trigger] f[j] != '.',
    ensures
        last_dot_before(f, k) is None,
    decreases k,
{
    if k > 0 {
        lemma_no_dot_before(f, k - 1);
    }
}

/// The extension of a file name is what follows its last `.`, however many
/// dots come before; a name without `.` is its own extension.
pub proof fn lemma_extension_after_last_dot(stem: Seq<char>, e: Seq<char>)
    requires
        no_dot(e),
    ensures
        extension_of(stem.push('.') + e) == e,
        extension_of(e) == e,
{
    let f = stem.push('.') + e;
    let lo = stem.len() as int;
    assert forall|j: int| lo < j < f.len() implies #[trigger] f[j] != '.' by {
        assert(f[j] == e[j - lo - 1]);
    }
    lemma_last_dot_at(f, lo, f.len() as int);
    assert(f.skip(lo + 1) =~= e);
    lemma_no_dot_before(e, e.len() as int);
}

/// The style of a file depends only on its extension (the part after its
/// last `.`, or the whole name) once the language id is not in the table.
pub proof fn lemma_style_by_extension(id: Seq<char>, stem: Seq<char>, e: Seq<char>)
    requires
        !known_language_id(id),
        no_dot(e),
    ensures
        style_for(id, e) == style_for(id, stem.push('.') + e),
{
    lemma_extension_after_last_dot(stem, e);
}

/// The language table: each id listed gets its style, whatever the file is called.
pub proof fn lemma_language_table(f: Seq<char>)
    ensures
        style_for("c"@, f) == CommentStyle::Slashes,
        style_for("cpp"@, f) == CommentStyle::Slashes,
        style_for("c++"@, f) == CommentStyle::Slashes,
        style_for("css"@, f) == CommentStyle::Slashes,
        style_for("go"@, f) == CommentStyle::Slashes,
        style_for("groovy"@, f) == CommentStyle::Slashes,
        style_for("java"@, f) == CommentStyle::Slashes,
        style_for("javascript"@, f) == CommentStyle::Slashes,
        style_for("javascriptreact"@, f) == CommentStyle::Slashes,
        style_for("jsx"@, f) == CommentStyle::Slashes,
        style_for("less"@, f) == CommentStyle::Slashes,
        style_for("objective-c"@, f) == CommentStyle::Slashes,
        style_for("objective_c"@, f) == CommentStyle::Slashes,
        style_for("objc"@, f) == CommentStyle::Slashes,
        style_for("php"@, f) == CommentStyle::Slashes,
        style_for("rust"@, f) == CommentStyle::Slashes,
        style_for("scss"@, f) == CommentStyle::Slashes,
        style_for("swift"@, f) == CommentStyle::Slashes,
        style_for("typescript"@, f) == CommentStyle::Slashes,
        style_for("typescriptreact"@, f) == CommentStyle::Slashes,
        style_for("tsx"@, f) == CommentStyle::Slashes,
        style_for("xsl"@, f) == CommentStyle::Slashes,
        style_for("jade"@, f) == CommentStyle::Slashes,
        style_for("python"@, f) == CommentStyle::Hashes,
        style_for("ruby"@, f) == CommentStyle::Hashes,
        style_for("perl"@, f) == CommentStyle::Hashes,
        style_for("perl6"@, f) == CommentStyle::Hashes,
        style_for("bash"@, f) == CommentStyle::Hashes,
        style_for("shellscript"@, f) == CommentStyle::Hashes,
        style_for("shell"@, f) == CommentStyle::Hashes,
        style_for("shell script"@, f) == CommentStyle::Hashes,
        style_for("sh"@, f) == CommentStyle::Hashes,
        style_for("zsh"@, f) == CommentStyle::Hashes,
        style_for("fish"@, f) == CommentStyle::Hashes,
        style_for("makefile"@, f) == CommentStyle::Hashes,
        style_for("make"@, f) == CommentStyle::Hashes,
        style_for("coffeescript"@, f) == CommentStyle::Hashes,
        style_for("powershell"@, f) == CommentStyle::Hashes,
        style_for("r"@, f) == CommentStyle::Hashes,
        style_for("sql"@, f) == CommentStyle::Hashes,
        style_for("yaml"@, f) == CommentStyle::Hashes,
        style_for("dockerfile"@, f) == CommentStyle::Hashes,
        style_for("plaintext"@, f) == CommentStyle::Hashes,
        style_for("plain text"@, f) == CommentStyle::Hashes,
        style_for("toml"@, f) == CommentStyle::Hashes,
        style_for("gitignore"@, f) == CommentStyle::Hashes,
        style_for("env"@, f) == CommentStyle::Hashes,
        style_for("haskell"@, f) == CommentStyle::Dashes,
        style_for("lua"@, f) == CommentStyle::Dashes,
        style_for("ocaml"@, f) == CommentStyle::Parens,
        style_for("fsharp"@, f) == CommentStyle::Parens,
        style_for("f#"@, f) == CommentStyle::Parens,
        style_for("latex"@, f) == CommentStyle::Percents,
        style_for("tex"@, f) == CommentStyle::Percents,
        style_for("ini"@, f) == CommentStyle::Semicolons,
{
    reveal_strlit("c");
    assert("c"@.len() == 1 && "c"@[0] == 'c');
    reveal_strlit("cpp");
    assert("cpp"@.len() == 3 && "cpp"@[0] == 'c' && "cpp"@[1] == 'p' && "cpp"@[2] == 'p');
    reveal_strlit("c++");
    assert("c++"@.len() == 3 && "c++"@[0] == 'c' && "c++"@[1] == '+' && "c++"@[2] == '+');
    reveal_strlit("css");
    assert("css"@.len() == 3 && "css"@[0] == 'c' && "css"@[1] == 's' && "css"@[2] == 's');
    reveal_strlit("go");
    assert("go"@.len() == 2 && "go"@[0] == 'g' && "go"@[1] == 'o');
    reveal_strlit("groovy");
    assert("groovy"@.len() == 6 && "groovy"@[0] == 'g' && "groovy"@[1] == 'r' && "groovy"@[2] == 'o' && "groovy"@[3] == 'o' && "groovy"@[4] == 'v' && "groovy"@[5] == 'y');
    reveal_strlit("java");
    assert("java"@.len() == 4 && "java"@[0] == 'j' && "java"@[1] == 'a' && "java"@[2] == 'v' && "java"@[3] == 'a');
    reveal_strlit("javascript");
    assert("javascript"@.len() == 10 && "javascript"@[0] == 'j' && "javascript"@[1] == 'a' && "javascript"@[2] == 'v' && "javascript"@[3] == 'a' && "javascript"@[4] == 's' && "javascript"@[5] == 'c' && "javascript"@[6] == 'r' && "javascript"@[7] == 'i' && "javascript"@[8] == 'p' && "javascript"@[9] == 't');
    reveal_strlit("javascriptreact");
    assert("javascriptreact"@.len() == 15 && "javascriptreact"@[0] == 'j' && "javascriptreact"@[1] == 'a' && "javascriptreact"@[2] == 'v' && "javascriptreact"@[3] == 'a' && "javascriptreact"@[4] == 's' && "javascriptreact"@[5] == 'c' && "javascriptreact"@[6] == 'r' && "javascriptreact"@[7] == 'i' && "javascriptreact"@[8] == 'p' && "javascriptreact"@[9] == 't' && "javascriptreact"@[10] == 'r' && "javascriptreact"@[11] == 'e' && "javascriptreact"@[12] == 'a' && "javascriptreact"@[13] == 'c' && "javascriptreact"@[14] == 't');
    reveal_strlit("jsx");
    assert("jsx"@.len() == 3 && "jsx"@[0] == 'j' && "jsx"@[1] == 's' && "jsx"@[2] == 'x');
    reveal_strlit("less");
    assert("less"@.len() == 4 && "less"@[0] == 'l' && "less"@[1] == 'e' && "less"@[2] == 's' && "less"@[3] == 's');
    reveal_strlit("objective-c");
    assert("objective-c"@.len() == 11 && "objective-c"@[0] == 'o' && "objective-c"@[1] == 'b' && "objective-c"@[2] == 'j' && "objective-c"@[3] == 'e' && "objective-c"@[4] == 'c' && "objective-c"@[5] == 't' && "objective-c"@[6] == 'i' && "objective-c"@[7] == 'v' && "objective-c"@[8] == 'e' && "objective-c"@[9] == '-' && "objective-c"@[10] == 'c');
    reveal_strlit("objective_c");
    assert("objective_c"@.len() == 11 && "objective_c"@[0] == 'o' && "objective_c"@[1] == 'b' && "objective_c"@[2] == 'j' && "objective_c"@[3] == 'e' && "objective_c"@[4] == 'c' && "objective_c"@[5] == 't' && "objective_c"@[6] == 'i' && "objective_c"@[7] == 'v' && "objective_c"@[8] == 'e' && "objective_c"@[9] == '_' && "objective_c"@[10] == 'c');
    reveal_strlit("objc");
    assert("objc"@.len() == 4 && "objc"@[0] == 'o' && "objc"@[1] == 'b' && "objc"@[2] == 'j' && "objc"@[3] == 'c');
    reveal_strlit("php");
    assert("php"@.len() == 3 && "php"@[0] == 'p' && "php"@[1] == 'h' && "php"@[2] == 'p');
    reveal_strlit("rust");
    assert("rust"@.len() == 4 && "rust"@[0] == 'r' && "rust"@[1] == 'u' && "rust"@[2] == 's' && "rust"@[3] == 't');
    reveal_strlit("scss");
    assert("scss"@.len() == 4 && "scss"@[0] == 's' && "scss"@[1] == 'c' && "scss"@[2] == 's' && "scss"@[3] == 's');
    reveal_strlit("swift");
    assert("swift"@.len() == 5 && "swift"@[0] == 's' && "swift"@[1] == 'w' && "swift"@[2] == 'i' && "swift"@[3] == 'f' && "swift"@[4] == 't');
    reveal_strlit("typescript");
    assert("typescript"@.len() == 10 && "typescript"@[0] == 't' && "typescript"@[1] == 'y' && "typescript"@[2] == 'p' && "typescript"@[3] == 'e' && "typescript"@[4] == 's' && "typescript"@[5] == 'c' && "typescript"@[6] == 'r' && "typescript"@[7] == 'i' && "typescript"@[8] == 'p' && "typescript"@[9] == 't');
    reveal_strlit("typescriptreact");
    assert("typescriptreact"@.len() == 15 && "typescriptreact"@[0] == 't' && "typescriptreact"@[1] == 'y' && "typescriptreact"@[2] == 'p' && "typescriptreact"@[3] == 'e' && "typescriptreact"@[4] == 's' && "typescriptreact"@[5] == 'c' && "typescriptreact"@[6] == 'r' && "typescriptreact"@[7] == 'i' && "typescriptreact"@[8] == 'p' && "typescriptreact"@[9] == 't' && "typescriptreact"@[10] == 'r' && "typescriptreact"@[11] == 'e' && "typescriptreact"@[12] == 'a' && "typescriptreact"@[13] == 'c' && "typescriptreact"@[14] == 't');
    reveal_strlit("tsx");
    assert("tsx"@.len() == 3 && "tsx"@[0] == 't' && "tsx"@[1] == 's' && "tsx"@[2] == 'x');
    reveal_strlit("xsl");
    assert("xsl"@.len() == 3 && "xsl"@[0] == 'x' && "xsl"@[1] == 's' && "xsl"@[2] == 'l');
    reveal_strlit("jade");
    assert("jade"@.len() == 4 && "jade"@[0] == 'j' && "jade"@[1] == 'a' && "jade"@[2] == 'd' && "jade"@[3] == 'e');
    reveal_strlit("python");
    assert("python"@.len() == 6 && "python"@[0] == 'p' && "python"@[1] == 'y' && "python"@[2] == 't' && "python"@[3] == 'h' && "python"@[4] == 'o' && "python"@[5] == 'n');
    reveal_strlit("ruby");
    assert("ruby"@.len() == 4 && "ruby"@[0] == 'r' && "ruby"@[1] == 'u' && "ruby"@[2] == 'b' && "ruby"@[3] == 'y');
    reveal_strlit("perl");
    assert("perl"@.len() == 4 && "perl"@[0] == 'p' && "perl"@[1] == 'e' && "perl"@[2] == 'r' && "perl"@[3] == 'l');
    reveal_strlit("perl6");
    assert("perl6"@.len() == 5 && "perl6"@[0] == 'p' && "perl6"@[1] == 'e' && "perl6"@[2] == 'r' && "perl6"@[3] == 'l' && "perl6"@[4] == '6');
    reveal_strlit("bash");
    assert("bash"@.len() == 4 && "bash"@[0] == 'b' && "bash"@[1] == 'a' && "bash"@[2] == 's' && "bash"@[3] == 'h');
    reveal_strlit("shellscript");
    assert("shellscript"@.len() == 11 && "shellscript"@[0] == 's' && "shellscript"@[1] == 'h' && "shellscript"@[2] == 'e' && "shellscript"@[3] == 'l' && "shellscript"@[4] == 'l' && "shellscript"@[5] == 's' && "shellscript"@[6] == 'c' && "shellscript"@[7] == 'r' && "shellscript"@[8] == 'i' && "shellscript"@[9] == 'p' && "shellscript"@[10] == 't');
    reveal_strlit("shell");
    assert("shell"@.len() == 5 && "shell"@[0] == 's' && "shell"@[1] == 'h' && "shell"@[2] == 'e' && "shell"@[3] == 'l' && "shell"@[4] == 'l');
    reveal_strlit("shell script");
    assert("shell script"@.len() == 12 && "shell script"@[0] == 's' && "shell script"@[1] == 'h' && "shell script"@[2] == 'e' && "shell script"@[3] == 'l' && "shell script"@[4] == 'l' && "shell script"@[5] == ' ' && "shell script"@[6] == 's' && "shell script"@[7] == 'c' && "shell script"@[8] == 'r' && "shell script"@[9] == 'i' && "shell script"@[10] == 'p' && "shell script"@[11] == 't');
    reveal_strlit("sh");
    assert("sh"@.len() == 2 && "sh"@[0] == 's' && "sh"@[1] == 'h');
    reveal_strlit("zsh");
    assert("zsh"@.len() == 3 && "zsh"@[0] == 'z' && "zsh"@[1] == 's' && "zsh"@[2] == 'h');
    reveal_strlit("fish");
    assert("fish"@.len() == 4 && "fish"@[0] == 'f' && "fish"@[1] == 'i' && "fish"@[2] == 's' && "fish"@[3] == 'h');
    reveal_strlit("makefile");
    assert("makefile"@.len() == 8 && "makefile"@[0] == 'm' && "makefile"@[1] == 'a' && "makefile"@[2] == 'k' && "makefile"@[3] == 'e' && "makefile"@[4] == 'f' && "makefile"@[5] == 'i' && "makefile"@[6] == 'l' && "makefile"@[7] == 'e');
    reveal_strlit("make");
    assert("make"@.len() == 4 && "make"@[0] == 'm' && "make"@[1] == 'a' && "make"@[2] == 'k' && "make"@[3] == 'e');
    reveal_strlit("coffeescript");
    assert("coffeescript"@.len() == 12 && "coffeescript"@[0] == 'c' && "coffeescript"@[1] == 'o' && "coffeescript"@[2] == 'f' && "coffeescript"@[3] == 'f' && "coffeescript"@[4] == 'e' && "coffeescript"@[5] == 'e' && "coffeescript"@[6] == 's' && "coffeescript"@[7] == 'c' && "coffeescript"@[8] == 'r' && "coffeescript"@[9] == 'i' && "coffeescript"@[10] == 'p' && "coffeescript"@[11] == 't');
    reveal_strlit("powershell");
    assert("powershell"@.len() == 10 && "powershell"@[0] == 'p' && "powershell"@[1] == 'o' && "powershell"@[2] == 'w' && "powershell"@[3] == 'e' && "powershell"@[4] == 'r' && "powershell"@[5] == 's' && "powershell"@[6] == 'h' && "powershell"@[7] == 'e' && "powershell"@[8] == 'l' && "powershell"@[9] == 'l');
    reveal_strlit("r");
    assert("r"@.len() == 1 && "r"@[0] == 'r');
    reveal_strlit("sql");
    assert("sql"@.len() == 3 && "sql"@[0] == 's' && "sql"@[1] == 'q' && "sql"@[2] == 'l');
    reveal_strlit("yaml");
    assert("yaml"@.len() == 4 && "yaml"@[0] == 'y' && "yaml"@[1] == 'a' && "yaml"@[2] == 'm' && "yaml"@[3] == 'l');
    reveal_strlit("dockerfile");
    assert("dockerfile"@.len() == 10 && "dockerfile"@[0] == 'd' && "dockerfile"@[1] == 'o' && "dockerfile"@[2] == 'c' && "dockerfile"@[3] == 'k' && "dockerfile"@[4] == 'e' && "dockerfile"@[5] == 'r' && "dockerfile"@[6] == 'f' && "dockerfile"@[7] == 'i' && "dockerfile"@[8] == 'l' && "dockerfile"@[9] == 'e');
    reveal_strlit("plaintext");
    assert("plaintext"@.len() == 9 && "plaintext"@[0] == 'p' && "plaintext"@[1] == 'l' && "plaintext"@[2] == 'a' && "plaintext"@[3] == 'i' && "plaintext"@[4] == 'n' && "plaintext"@[5] == 't' && "plaintext"@[6] == 'e' && "plaintext"@[7] == 'x' && "plaintext"@[8] == 't');
    reveal_strlit("plain text");
    assert("plain text"@.len() == 10 && "plain text"@[0] == 'p' && "plain text"@[1] == 'l' && "plain text"@[2] == 'a' && "plain text"@[3] == 'i' && "plain text"@[4] == 'n' && "plain text"@[5] == ' ' && "plain text"@[6] == 't' && "plain text"@[7] == 'e' && "plain text"@[8] == 'x' && "plain text"@[9] == 't');
    reveal_strlit("toml");
    assert("toml"@.len() == 4 && "toml"@[0] == 't' && "toml"@[1] == 'o' && "toml"@[2] == 'm' && "toml"@[3] == 'l');
    reveal_strlit("gitignore");
    assert("gitignore"@.len() == 9 && "gitignore"@[0] == 'g' && "gitignore"@[1] == 'i' && "gitignore"@[2] == 't' && "gitignore"@[3] == 'i' && "gitignore"@[4] == 'g' && "gitignore"@[5] == 'n' && "gitignore"@[6] == 'o' && "gitignore"@[7] == 'r' && "gitignore"@[8] == 'e');
    reveal_strlit("env");
    assert("env"@.len() == 3 && "env"@[0] == 'e' && "env"@[1] == 'n' && "env"@[2] == 'v');
    reveal_strlit("haskell");
    assert("haskell"@.len() == 7 && "haskell"@[0] == 'h' && "haskell"@[1] == 'a' && "haskell"@[2] == 's' && "haskell"@[3] == 'k' && "haskell"@[4] == 'e' && "haskell"@[5] == 'l' && "haskell"@[6] == 'l');
    reveal_strlit("lua");
    assert("lua"@.len() == 3 && "lua"@[0] == 'l' && "lua"@[1] == 'u' && "lua"@[2] == 'a');
    reveal_strlit("ocaml");
    assert("ocaml"@.len() == 5 && "ocaml"@[0] == 'o' && "ocaml"@[1] == 'c' && "ocaml"@[2] == 'a' && "ocaml"@[3] == 'm' && "ocaml"@[4] == 'l');
    reveal_strlit("fsharp");
    assert("fsharp"@.len() == 6 && "fsharp"@[0] == 'f' && "fsharp"@[1] == 's' && "fsharp"@[2] == 'h' && "fsharp"@[3] == 'a' && "fsharp"@[4] == 'r' && "fsharp"@[5] == 'p');
    reveal_strlit("f#");
    assert("f#"@.len() == 2 && "f#"@[0] == 'f' && "f#"@[1] == '#');
    reveal_strlit("latex");
    assert("latex"@.len() == 5 && "latex"@[0] == 'l' && "latex"@[1] == 'a' && "latex"@[2] == 't' && "latex"@[3] == 'e' && "latex"@[4] == 'x');
    reveal_strlit("tex");
    assert("tex"@.len() == 3 && "tex"@[0] == 't' && "tex"@[1] == 'e' && "tex"@[2] == 'x');
    reveal_strlit("ini");
    assert("ini"@.len() == 3 && "ini"@[0] == 'i' && "ini"@[1] == 'n' && "ini"@[2] == 'i');
}

/// A language id not in the table does not choose the style: every such id
/// gives the style of the file name alone.
pub proof fn lemma_unlisted_language(id: Seq<char>, other: Seq<char>, f: Seq<char>)
    requires
        !known_language_id(id),
        !known_language_id(other),
    ensures
        style_for(id, f) == style_for(other, f),
{
}

/// The extension table: for a language id not in the table, a file whose name
/// ends in `.` and a listed extension gets that extension's style (the
/// extensions of C-like languages, and all others not listed, get slashes).
pub proof fn lemma_extension_table(id: Seq<char>, stem: Seq<char>)
    requires
        !known_language_id(id),
    ensures
        style_for(id, stem.push('.') + "c"@) == CommentStyle::Slashes,
        style_for(id, stem.push('.') + "h"@) == CommentStyle::Slashes,
        style_for(id, stem.push('.') + "cpp"@) == CommentStyle::Slashes,
        style_for(id, stem.push('.') + "hpp"@) == CommentStyle::Slashes,
        style_for(id, stem.push('.') + "cc"@) == CommentStyle::Slashes,
        style_for(id, stem.push('.') + "cxx"@) == CommentStyle::Slashes,
        style_for(id, stem.push('.') + "hxx"@) == CommentStyle::Slashes,
        style_for(id, stem.push('.') + "hh"@) == CommentStyle::Slashes,
        style_for(id, stem.push('.') + "css"@) == CommentStyle::Slashes,
        style_for(id, stem.push('.') + "scss"@) == CommentStyle::Slashes,
        style_for(id, stem.push('.') + "less"@) == CommentStyle::Slashes,
        style_for(id, stem.push('.') + "go"@) == CommentStyle::Slashes,
        style_for(id, stem.push('.') + "java"@) == CommentStyle::Slashes,
        style_for(id, stem.push('.') + "js"@) == CommentStyle::Slashes,
        style_for(id, stem.push('.') + "jsx"@) == CommentStyle::Slashes,
        style_for(id, stem.push('.') + "mjs"@) == CommentStyle::Slashes,
        style_for(id, stem.push('.') + "cjs"@) == CommentStyle::Slashes,
        style_for(id, stem.push('.') + "ts"@) == CommentStyle::Slashes,
        style_for(id, stem.push('.') + "tsx"@) == CommentStyle::Slashes,
        style_for(id, stem.push('.') + "mts"@) == CommentStyle::Slashes,
        style_for(id, stem.push('.') + "cts"@) == CommentStyle::Slashes,
        style_for(id, stem.push('.') + "php"@) == CommentStyle::Slashes,
        style_for(id, stem.push('.') + "rs"@) == CommentStyle::Slashes,
        style_for(id, stem.push('.') + "swift"@) == CommentStyle::Slashes,
        style_for(id, stem.push('.') + "m"@) == CommentStyle::Slashes,
        style_for(id, stem.push('.') + "mm"@) == CommentStyle::Slashes,
        style_for(id, stem.push('.') + "groovy"@) == CommentStyle::Slashes,
        style_for(id, stem.push('.') + "gradle"@) == CommentStyle::Slashes,
        style_for(id, stem.push('.') + "xsl"@) == CommentStyle::Slashes,
        style_for(id, stem.push('.') + "xslt"@) == CommentStyle::Slashes,
        style_for(id, stem.push('.') + "py"@) == CommentStyle::Hashes,
        style_for(id, stem.push('.') + "pyw"@) == CommentStyle::Hashes,
        style_for(id, stem.push('.') + "rb"@) == CommentStyle::Hashes,
        style_for(id, stem.push('.') + "pl"@) == CommentStyle::Hashes,
        style_for(id, stem.push('.') + "pm"@) == CommentStyle::Hashes,
        style_for(id, stem.push('.') + "sh"@) == CommentStyle::Hashes,
        style_for(id, stem.push('.') + "bash"@) == CommentStyle::Hashes,
        style_for(id, stem.push('.') + "zsh"@) == CommentStyle::Hashes,
        style_for(id, stem.push('.') + "fish"@) == CommentStyle::Hashes,
        style_for(id, stem.push('.') + "mk"@) == CommentStyle::Hashes,
        style_for(id, stem.push('.') + "makefile"@) == CommentStyle::Hashes,
        style_for(id, stem.push('.') + "coffee"@) == CommentStyle::Hashes,
        style_for(id, stem.push('.') + "ps1"@) == CommentStyle::Hashes,
        style_for(id, stem.push('.') + "r"@) == CommentStyle::Hashes,
        style_for(id, stem.push('.') + "sql"@) == CommentStyle::Hashes,
        style_for(id, stem.push('.') + "yml"@) == CommentStyle::Hashes,
        style_for(id, stem.push('.') + "yaml"@) == CommentStyle::Hashes,
        style_for(id, stem.push('.') + "toml"@) == CommentStyle::Hashes,
        style_for(id, stem.push('.') + "hs"@) == CommentStyle::Dashes,
        style_for(id, stem.push('.') + "lua"@) == CommentStyle::Dashes,
        style_for(id, stem.push('.') + "ml"@) == CommentStyle::Parens,
        style_for(id, stem.push('.') + "mli"@) == CommentStyle::Parens,
        style_for(id, stem.push('.') + "fs"@) == CommentStyle::Parens,
        style_for(id, stem.push('.') + "fsi"@) == CommentStyle::Parens,
        style_for(id, stem.push('.') + "fsx"@) == CommentStyle::Parens,
        style_for(id, stem.push('.') + "tex"@) == CommentStyle::Percents,
        style_for(id, stem.push('.') + "sty"@) == CommentStyle::Percents,
        style_for(id, stem.push('.') + "cls"@) == CommentStyle::Percents,
        style_for(id, stem.push('.') + "ini"@) == CommentStyle::Semicolons,
        style_for(id, stem.push('.') + "cfg"@) == CommentStyle::Semicolons,
{
    reveal_strlit("c");
    assert("c"@.len() == 1 && "c"@[0] == 'c');
    reveal_strlit("h");
    assert("h"@.len() == 1 && "h"@[0] == 'h');
    reveal_strlit("cpp");
    assert("cpp"@.len() == 3 && "cpp"@[0] == 'c' && "cpp"@[1] == 'p' && "cpp"@[2] == 'p');
    reveal_strlit("hpp");
    assert("hpp"@.len() == 3 && "hpp"@[0] == 'h' && "hpp"@[1] == 'p' && "hpp"@[2] == 'p');
    reveal_strlit("cc");
    assert("cc"@.len() == 2 && "cc"@[0] == 'c' && "cc"@[1] == 'c');
    reveal_strlit("cxx");
    assert("cxx"@.len() == 3 && "cxx"@[0] == 'c' && "cxx"@[1] == 'x' && "cxx"@[2] == 'x');
    reveal_strlit("hxx");
    assert("hxx"@.len() == 3 && "hxx"@[0] == 'h' && "hxx"@[1] == 'x' && "hxx"@[2] == 'x');
    reveal_strlit("hh");
    assert("hh"@.len() == 2 && "hh"@[0] == 'h' && "hh"@[1] == 'h');
    reveal_strlit("css");
    assert("css"@.len() == 3 && "css"@[0] == 'c' && "css"@[1] == 's' && "css"@[2] == 's');
    reveal_strlit("scss");
    assert("scss"@.len() == 4 && "scss"@[0] == 's' && "scss"@[1] == 'c' && "scss"@[2] == 's' && "scss"@[3] == 's');
    reveal_strlit("less");
    assert("less"@.len() == 4 && "less"@[0] == 'l' && "less"@[1] == 'e' && "less"@[2] == 's' && "less"@[3] == 's');
    reveal_strlit("go");
    assert("go"@.len() == 2 && "go"@[0] == 'g' && "go"@[1] == 'o');
    reveal_strlit("java");
    assert("java"@.len() == 4 && "java"@[0] == 'j' && "java"@[1] == 'a' && "java"@[2] == 'v' && "java"@[3] == 'a');
    reveal_strlit("js");
    assert("js"@.len() == 2 && "js"@[0] == 'j' && "js"@[1] == 's');
    reveal_strlit("jsx");
    assert("jsx"@.len() == 3 && "jsx"@[0] == 'j' && "jsx"@[1] == 's' && "jsx"@[2] == 'x');
    reveal_strlit("mjs");
    assert("mjs"@.len() == 3 && "mjs"@[0] == 'm' && "mjs"@[1] == 'j' && "mjs"@[2] == 's');
    reveal_strlit("cjs");
    assert("cjs"@.len() == 3 && "cjs"@[0] == 'c' && "cjs"@[1] == 'j' && "cjs"@[2] == 's');
    reveal_strlit("ts");
    assert("ts"@.len() == 2 && "ts"@[0] == 't' && "ts"@[1] == 's');
    reveal_strlit("tsx");
    assert("tsx"@.len() == 3 && "tsx"@[0] == 't' && "tsx"@[1] == 's' && "tsx"@[2] == 'x');
    reveal_strlit("mts");
    assert("mts"@.len() == 3 && "mts"@[0] == 'm' && "mts"@[1] == 't' && "mts"@[2] == 's');
    reveal_strlit("cts");
    assert("cts"@.len() == 3 && "cts"@[0] == 'c' && "cts"@[1] == 't' && "cts"@[2] == 's');
    reveal_strlit("php");
    assert("php"@.len() == 3 && "php"@[0] == 'p' && "php"@[1] == 'h' && "php"@[2] == 'p');
    reveal_strlit("rs");
    assert("rs"@.len() == 2 && "rs"@[0] == 'r' && "rs"@[1] == 's');
    reveal_strlit("swift");
    assert("swift"@.len() == 5 && "swift"@[0] == 's' && "swift"@[1] == 'w' && "swift"@[2] == 'i' && "swift"@[3] == 'f' && "swift"@[4] == 't');
    reveal_strlit("m");
    assert("m"@.len() == 1 && "m"@[0] == 'm');
    reveal_strlit("mm");
    assert("mm"@.len() == 2 && "mm"@[0] == 'm' && "mm"@[1] == 'm');
    reveal_strlit("groovy");
    assert("groovy"@.len() == 6 && "groovy"@[0] == 'g' && "groovy"@[1] == 'r' && "groovy"@[2] == 'o' && "groovy"@[3] == 'o' && "groovy"@[4] == 'v' && "groovy"@[5] == 'y');
    reveal_strlit("gradle");
    assert("gradle"@.len() == 6 && "gradle"@[0] == 'g' && "gradle"@[1] == 'r' && "gradle"@[2] == 'a' && "gradle"@[3] == 'd' && "gradle"@[4] == 'l' && "gradle"@[5] == 'e');
    reveal_strlit("xsl");
    assert("xsl"@.len() == 3 && "xsl"@[0] == 'x' && "xsl"@[1] == 's' && "xsl"@[2] == 'l');
    reveal_strlit("xslt");
    assert("xslt"@.len() == 4 && "xslt"@[0] == 'x' && "xslt"@[1] == 's' && "xslt"@[2] == 'l' && "xslt"@[3] == 't');
    reveal_strlit("py");
    assert("py"@.len() == 2 && "py"@[0] == 'p' && "py"@[1] == 'y');
    reveal_strlit("pyw");
    assert("pyw"@.len() == 3 && "pyw"@[0] == 'p' && "pyw"@[1] == 'y' && "pyw"@[2] == 'w');
    reveal_strlit("rb");
    assert("rb"@.len() == 2 && "rb"@[0] == 'r' && "rb"@[1] == 'b');
    reveal_strlit("pl");
    assert("pl"@.len() == 2 && "pl"@[0] == 'p' && "pl"@[1] == 'l');
    reveal_strlit("pm");
    assert("pm"@.len() == 2 && "pm"@[0] == 'p' && "pm"@[1] == 'm');
    reveal_strlit("sh");
    assert("sh"@.len() == 2 && "sh"@[0] == 's' && "sh"@[1] == 'h');
    reveal_strlit("bash");
    assert("bash"@.len() == 4 && "bash"@[0] == 'b' && "bash"@[1] == 'a' && "bash"@[2] == 's' && "bash"@[3] == 'h');
    reveal_strlit("zsh");
    assert("zsh"@.len() == 3 && "zsh"@[0] == 'z' && "zsh"@[1] == 's' && "zsh"@[2] == 'h');
    reveal_strlit("fish");
    assert("fish"@.len() == 4 && "fish"@[0] == 'f' && "fish"@[1] == 'i' && "fish"@[2] == 's' && "fish"@[3] == 'h');
    reveal_strlit("mk");
    assert("mk"@.len() == 2 && "mk"@[0] == 'm' && "mk"@[1] == 'k');
    reveal_strlit("makefile");
    assert("makefile"@.len() == 8 && "makefile"@[0] == 'm' && "makefile"@[1] == 'a' && "makefile"@[2] == 'k' && "makefile"@[3] == 'e' && "makefile"@[4] == 'f' && "makefile"@[5] == 'i' && "makefile"@[6] == 'l' && "makefile"@[7] == 'e');
    reveal_strlit("coffee");
    assert("coffee"@.len() == 6 && "coffee"@[0] == 'c' && "coffee"@[1] == 'o' && "coffee"@[2] == 'f' && "coffee"@[3] == 'f' && "coffee"@[4] == 'e' && "coffee"@[5] == 'e');
    reveal_strlit("ps1");
    assert("ps1"@.len() == 3 && "ps1"@[0] == 'p' && "ps1"@[1] == 's' && "ps1"@[2] == '1');
    reveal_strlit("r");
    assert("r"@.len() == 1 && "r"@[0] == 'r');
    reveal_strlit("sql");
    assert("sql"@.len() == 3 && "sql"@[0] == 's' && "sql"@[1] == 'q' && "sql"@[2] == 'l');
    reveal_strlit("yml");
    assert("yml"@.len() == 3 && "yml"@[0] == 'y' && "yml"@[1] == 'm' && "yml"@[2] == 'l');
    reveal_strlit("yaml");
    assert("yaml"@.len() == 4 && "yaml"@[0] == 'y' && "yaml"@[1] == 'a' && "yaml"@[2] == 'm' && "yaml"@[3] == 'l');
    reveal_strlit("toml");
    assert("toml"@.len() == 4 && "toml"@[0] == 't' && "toml"@[1] == 'o' && "toml"@[2] == 'm' && "toml"@[3] == 'l');
    reveal_strlit("hs");
    assert("hs"@.len() == 2 && "hs"@[0] == 'h' && "hs"@[1] == 's');
    reveal_strlit("lua");
    assert("lua"@.len() == 3 && "lua"@[0] == 'l' && "lua"@[1] == 'u' && "lua"@[2] == 'a');
    reveal_strlit("ml");
    assert("ml"@.len() == 2 && "ml"@[0] == 'm' && "ml"@[1] == 'l');
    reveal_strlit("mli");
    assert("mli"@.len() == 3 && "mli"@[0] == 'm' && "mli"@[1] == 'l' && "mli"@[2] == 'i');
    reveal_strlit("fs");
    assert("fs"@.len() == 2 && "fs"@[0] == 'f' && "fs"@[1] == 's');
    reveal_strlit("fsi");
    assert("fsi"@.len() == 3 && "fsi"@[0] == 'f' && "fsi"@[1] == 's' && "fsi"@[2] == 'i');
    reveal_strlit("fsx");
    assert("fsx"@.len() == 3 && "fsx"@[0] == 'f' && "fsx"@[1] == 's' && "fsx"@[2] == 'x');
    reveal_strlit("tex");
    assert("tex"@.len() == 3 && "tex"@[0] == 't' && "tex"@[1] == 'e' && "tex"@[2] == 'x');
    reveal_strlit("sty");
    assert("sty"@.len() == 3 && "sty"@[0] == 's' && "sty"@[1] == 't' && "sty"@[2] == 'y');
    reveal_strlit("cls");
    assert("cls"@.len() == 3 && "cls"@[0] == 'c' && "cls"@[1] == 'l' && "cls"@[2] == 's');
    reveal_strlit("ini");
    assert("ini"@.len() == 3 && "ini"@[0] == 'i' && "ini"@[1] == 'n' && "ini"@[2] == 'i');
    reveal_strlit("cfg");
    assert("cfg"@.len() == 3 && "cfg"@[0] == 'c' && "cfg"@[1] == 'f' && "cfg"@[2] == 'g');
    lemma_extension_after_last_dot(stem, "c"@);
    lemma_extension_after_last_dot(stem, "h"@);
    lemma_extension_after_last_dot(stem, "cpp"@);
    lemma_extension_after_last_dot(stem, "hpp"@);
    lemma_extension_after_last_dot(stem, "cc"@);
    lemma_extension_after_last_dot(stem, "cxx"@);
    lemma_extension_after_last_dot(stem, "hxx"@);
    lemma_extension_after_last_dot(stem, "hh"@);
    lemma_extension_after_last_dot(stem, "css"@);
    lemma_extension_after_last_dot(stem, "scss"@);
    lemma_extension_after_last_dot(stem, "less"@);
    lemma_extension_after_last_dot(stem, "go"@);
    lemma_extension_after_last_dot(stem, "java"@);
    lemma_extension_after_last_dot(stem, "js"@);
    lemma_extension_after_last_dot(stem, "jsx"@);
    lemma_extension_after_last_dot(stem, "mjs"@);
    lemma_extension_after_last_dot(stem, "cjs"@);
    lemma_extension_after_last_dot(stem, "ts"@);
    lemma_extension_after_last_dot(stem, "tsx"@);
    lemma_extension_after_last_dot(stem, "mts"@);
    lemma_extension_after_last_dot(stem, "cts"@);
    lemma_extension_after_last_dot(stem, "php"@);
    lemma_extension_after_last_dot(stem, "rs"@);
    lemma_extension_after_last_dot(stem, "swift"@);
    lemma_extension_after_last_dot(stem, "m"@);
    lemma_extension_after_last_dot(stem, "mm"@);
    lemma_extension_after_last_dot(stem, "groovy"@);
    lemma_extension_after_last_dot(stem, "gradle"@);
    lemma_extension_after_last_dot(stem, "xsl"@);
    lemma_extension_after_last_dot(stem, "xslt"@);
    lemma_extension_after_last_dot(stem, "py"@);
    lemma_extension_after_last_dot(stem, "pyw"@);
    lemma_extension_after_last_dot(stem, "rb"@);
    lemma_extension_after_last_dot(stem, "pl"@);
    lemma_extension_after_last_dot(stem, "pm"@);
    lemma_extension_after_last_dot(stem, "sh"@);
    lemma_extension_after_last_dot(stem, "bash"@);
    lemma_extension_after_last_dot(stem, "zsh"@);
    lemma_extension_after_last_dot(stem, "fish"@);
    lemma_extension_after_last_dot(stem, "mk"@);
    lemma_extension_after_last_dot(stem, "makefile"@);
    lemma_extension_after_last_dot(stem, "coffee"@);
    lemma_extension_after_last_dot(stem, "ps1"@);
    lemma_extension_after_last_dot(stem, "r"@);
    lemma_extension_after_last_dot(stem, "sql"@);
    lemma_extension_after_last_dot(stem, "yml"@);
    lemma_extension_after_last_dot(stem, "yaml"@);
    lemma_extension_after_last_dot(stem, "toml"@);
    lemma_extension_after_last_dot(stem, "hs"@);
    lemma_extension_after_last_dot(stem, "lua"@);
    lemma_extension_after_last_dot(stem, "ml"@);
    lemma_extension_after_last_dot(stem, "mli"@);
    lemma_extension_after_last_dot(stem, "fs"@);
    lemma_extension_after_last_dot(stem, "fsi"@);
    lemma_extension_after_last_dot(stem, "fsx"@);
    lemma_extension_after_last_dot(stem, "tex"@);
    lemma_extension_after_last_dot(stem, "sty"@);
    lemma_extension_after_last_dot(stem, "cls"@);
    lemma_extension_after_last_dot(stem, "ini"@);
    lemma_extension_after_last_dot(stem, "cfg"@);
}

/// An extension that is not given another style gets slashes.
pub proof fn lemma_unlisted_extension(id: Seq<char>, stem: Seq<char>, e: Seq<char>)
    requires
        !known_language_id(id),
        !styled_extension(e),
        no_dot(e),
    ensures
        style_for(id, stem.push('.') + e) == CommentStyle::Slashes,
        style_for(id, e) == CommentStyle::Slashes,
{
    lemma_extension_after_last_dot(stem, e);
}

/// Language ids are matched without regard to case: lower-casing an ASCII id
/// a second time changes nothing, so an id and its lower-case form get the
/// same style.
pub proof fn lemma_language_case_insensitive(id: Seq<char>, filename: Seq<char>)
    requires
        is_ascii_chars(id),
    ensures
        is_ascii_chars(ascii_lowercase(id)),
        ascii_lowercase(ascii_lowercase(id)) == ascii_lowercase(id),
        style_for(ascii_lowercase(ascii_lowercase(id)), filename) == style_for(
            ascii_lowercase(id),
            filename,
        ),
{
    let l = ascii_lowercase(id);
    assert forall|i: int| 0 <= i < l.len() implies '\0' <= #[trigger] l[i] <= '\u{7f}' && !(
    'A' <= l[i] && l[i] <= 'Z') by {
        let c = id[i];
        if 'A' <= c && c <= 'Z' {
            let v = ((c as u32) + 32) as char;
            assert(l[i] == v);
        }
    }
    assert(ascii_lowercase(l) =~= l);
}

/// What `str::to_lowercase` returns for a string with the given characters
/// (Unicode lower-case mapping).
pub uninterp spec fn unicode_lowercase(s: Seq<char>) -> Seq<char>;

/// `str::to_lowercase`. The result is named `unicode_lowercase`; for ASCII
/// input it is the ASCII lower-case mapping. What it returns for other
/// characters (the Unicode case tables) is left to the name.
#[verifier::external_body]
fn to_lowercase(s: &str) -> (r: String)
    ensures
        r@ == unicode_lowercase(s@),
        is_ascii_chars(s@) ==> r@ == ascii_lowercase(s@),
{
    s.to_lowercase()
}

/// The extension of `filename` (see `extension_of`).
pub fn file_extension(filename: &str) -> (r: &str)
    ensures
        r@ == extension_of(filename@),
{
    let v = chars_of(filename);
    let n = v.len();
    let mut i = n;
    while i > 0 && v[i - 1] != '.'
        invariant
            i <= n,
            n == v@.len(),
            v@ == filename@,
            last_dot_before(filename@, n as int) == last_dot_before(filename@, i as int),
        decreases i,
    {
        i = i - 1;
    }
    if i == 0 {
        filename
    } else {
        let r = filename.substring_char(i, n);
        assert(r@ =~= filename@.skip(i as int));
        r
    }
}

/// The style for `filename` whose language id, already in lower case, is `lowered_id`.
pub fn comment_style(lowered_id: &str, filename: &str) -> (r: CommentStyle)
    ensures
        r == style_for(lowered_id@, filename@),
{
    if slash_language(lowered_id) {
        CommentStyle::Slashes
    } else if hash_language(lowered_id) {
        CommentStyle::Hashes
    } else if dash_language(lowered_id) {
        CommentStyle::Dashes
    } else if paren_language(lowered_id) {
        CommentStyle::Parens
    } else if percent_language(lowered_id) {
        CommentStyle::Percents
    } else if semicolon_language(lowered_id) {
        CommentStyle::Semicolons
    } else {
        let ext = file_extension(filename);
        if hash_extension(ext) {
            CommentStyle::Hashes
        } else if dash_extension(ext) {
            CommentStyle::Dashes
        } else if paren_extension(ext) {
            CommentStyle::Parens
        } else if percent_extension(ext) {
            CommentStyle::Percents
        } else if semicolon_extension(ext) {
            CommentStyle::Semicolons
        } else {
            CommentStyle::Slashes
        }
    }
}

/// The left and right comment delimiters for a file with the given language
/// id (compared in lower case) and file name.
pub fn get_delimiters(language_id: &str, filename: &str) -> (r: (&'static str, &'static str))
    ensures
        r.0@ == style_for(unicode_lowercase(language_id@), filename@).left(),
        r.1@ == style_for(unicode_lowercase(language_id@), filename@).right(),
        is_ascii_chars(language_id@) ==> r.0@ == style_for(
            ascii_lowercase(language_id@),
            filename@,
        ).left() && r.1@ == style_for(ascii_lowercase(language_id@), filename@).right(),
{
    let lowered = to_lowercase(language_id);
    let style = comment_style(lowered.as_str(), filename);
    style.delimiters()
}

/// Language ids commented with the slashes style.
pub open spec fn is_slash_language(id: Seq<char>) -> bool {
    id == "c"@
    || id == "cpp"@
    || id == "c++"@
    || id == "css"@
    || id == "go"@
    || id == "groovy"@
    || id == "java"@
    || id == "javascript"@
    || id == "javascriptreact"@
    || id == "jsx"@
    || id == "less"@
    || id == "objective-c"@
    || id == "objective_c"@
    || id == "objc"@
    || id == "php"@
    || id == "rust"@
    || id == "scss"@
    || id == "swift"@
    || id == "typescript"@
    || id == "typescriptreact"@
    || id == "tsx"@
    || id == "xsl"@
    || id == "jade"@
}

/// Whether `id` is commented with the slashes style.
fn slash_language(id: &str) -> (r: bool)
    ensures
        r == is_slash_language(id@),
{
    str_eq(id, "c")
        || str_eq(id, "cpp")
        || str_eq(id, "c++")
        || str_eq(id, "css")
        || str_eq(id, "go")
        || str_eq(id, "groovy")
        || str_eq(id, "java")
        || str_eq(id, "javascript")
        || str_eq(id, "javascriptreact")
        || str_eq(id, "jsx")
        || str_eq(id, "less")
        || str_eq(id, "objective-c")
        || str_eq(id, "objective_c")
        || str_eq(id, "objc")
        || str_eq(id, "php")
        || str_eq(id, "rust")
        || str_eq(id, "scss")
        || str_eq(id, "swift")
        || str_eq(id, "typescript")
        || str_eq(id, "typescriptreact")
        || str_eq(id, "tsx")
        || str_eq(id, "xsl")
        || str_eq(id, "jade")
}

/// Language ids commented with the hashes style.
pub open spec fn is_hash_language(id: Seq<char>) -> bool {
    id == "python"@
    || id == "ruby"@
    || id == "perl"@
    || id == "perl6"@
    || id == "bash"@
    || id == "shellscript"@
    || id == "shell"@
    || id == "shell script"@
    || id == "sh"@
    || id == "zsh"@
    || id == "fish"@
    || id == "makefile"@
    || id == "make"@
    || id == "coffeescript"@
    || id == "powershell"@
    || id == "r"@
    || id == "sql"@
    || id == "yaml"@
    || id == "dockerfile"@
    || id == "plaintext"@
    || id == "plain text"@
    || id == "toml"@
    || id == "gitignore"@
    || id == "env"@
}

/// Whether `id` is commented with the hashes style.
fn hash_language(id: &str) -> (r: bool)
    ensures
        r == is_hash_language(id@),
{
    str_eq(id, "python")
        || str_eq(id, "ruby")
        || str_eq(id, "perl")
        || str_eq(id, "perl6")
        || str_eq(id, "bash")
        || str_eq(id, "shellscript")
        || str_eq(id, "shell")
        || str_eq(id, "shell script")
        || str_eq(id, "sh")
        || str_eq(id, "zsh")
        || str_eq(id, "fish")
        || str_eq(id, "makefile")
        || str_eq(id, "make")
        || str_eq(id, "coffeescript")
        || str_eq(id, "powershell")
        || str_eq(id, "r")
        || str_eq(id, "sql")
        || str_eq(id, "yaml")
        || str_eq(id, "dockerfile")
        || str_eq(id, "plaintext")
        || str_eq(id, "plain text")
        || str_eq(id, "toml")
        || str_eq(id, "gitignore")
        || str_eq(id, "env")
}

/// Language ids commented with the dashes style.
pub open spec fn is_dash_language(id: Seq<char>) -> bool {
    id == "haskell"@
    || id == "lua"@
}

/// Whether `id` is commented with the dashes style.
fn dash_language(id: &str) -> (r: bool)
    ensures
        r == is_dash_language(id@),
{
    str_eq(id, "haskell")
        || str_eq(id, "lua")
}

/// Language ids commented with the parens style.
pub open spec fn is_paren_language(id: Seq<char>) -> bool {
    id == "ocaml"@
    || id == "fsharp"@
    || id == "f#"@
}

/// Whether `id` is commented with the parens style.
fn paren_language(id: &str) -> (r: bool)
    ensures
        r == is_paren_language(id@),
{
    str_eq(id, "ocaml")
        || str_eq(id, "fsharp")
        || str_eq(id, "f#")
}

/// Language ids commented with the percents style.
pub open spec fn is_percent_language(id: Seq<char>) -> bool {
    id == "latex"@
    || id == "tex"@
}

/// Whether `id` is commented with the percents style.
fn percent_language(id: &str) -> (r: bool)
    ensures
        r == is_percent_language(id@),
{
    str_eq(id, "latex")
        || str_eq(id, "tex")
}

/// Language ids commented with the semicolons style.
pub open spec fn is_semicolon_language(id: Seq<char>) -> bool {
    id == "ini"@
}

/// Whether `id` is commented with the semicolons style.
fn semicolon_language(id: &str) -> (r: bool)
    ensures
        r == is_semicolon_language(id@),
{
    str_eq(id, "ini")
}

/// File extensions commented with the hashes style.
pub open spec fn is_hash_extension(ext: Seq<char>) -> bool {
    ext == "py"@
    || ext == "pyw"@
    || ext == "rb"@
    || ext == "pl"@
    || ext == "pm"@
    || ext == "sh"@
    || ext == "bash"@
    || ext == "zsh"@
    || ext == "fish"@
    || ext == "mk"@
    || ext == "makefile"@
    || ext == "coffee"@
    || ext == "ps1"@
    || ext == "r"@
    || ext == "sql"@
    || ext == "yml"@
    || ext == "yaml"@
    || ext == "toml"@
}

/// Whether the extension `ext` is commented with the hashes style.
fn hash_extension(ext: &str) -> (r: bool)
    ensures
        r == is_hash_extension(ext@),
{
    str_eq(ext, "py")
        || str_eq(ext, "pyw")
        || str_eq(ext, "rb")
        || str_eq(ext, "pl")
        || str_eq(ext, "pm")
        || str_eq(ext, "sh")
        || str_eq(ext, "bash")
        || str_eq(ext, "zsh")
        || str_eq(ext, "fish")
        || str_eq(ext, "mk")
        || str_eq(ext, "makefile")
        || str_eq(ext, "coffee")
        || str_eq(ext, "ps1")
        || str_eq(ext, "r")
        || str_eq(ext, "sql")
        || str_eq(ext, "yml")
        || str_eq(ext, "yaml")
        || str_eq(ext, "toml")
}

/// File extensions commented with the dashes style.
pub open spec fn is_dash_extension(ext: Seq<char>) -> bool {
    ext == "hs"@
    || ext == "lua"@
}

/// Whether the extension `ext` is commented with the dashes style.
fn dash_extension(ext: &str) -> (r: bool)
    ensures
        r == is_dash_extension(ext@),
{
    str_eq(ext, "hs")
        || str_eq(ext, "lua")
}

/// File extensions commented with the parens style.
pub open spec fn is_paren_extension(ext: Seq<char>) -> bool {
    ext == "ml"@
    || ext == "mli"@
    || ext == "fs"@
    || ext == "fsi"@
    || ext == "fsx"@
}

/// Whether the extension `ext` is commented with the parens style.
fn paren_extension(ext: &str) -> (r: bool)
    ensures
        r == is_paren_extension(ext@),
{
    str_eq(ext, "ml")
        || str_eq(ext, "mli")
        || str_eq(ext, "fs")
        || str_eq(ext, "fsi")
        || str_eq(ext, "fsx")
}

/// File extensions commented with the percents style.
pub open spec fn is_percent_extension(ext: Seq<char>) -> bool {
    ext == "tex"@
    || ext == "sty"@
    || ext == "cls"@
}

/// Whether the extension `ext` is commented with the percents style.
fn percent_extension(ext: &str) -> (r: bool)
    ensures
        r == is_percent_extension(ext@),
{
    str_eq(ext, "tex")
        || str_eq(ext, "sty")
        || str_eq(ext, "cls")
}

/// File extensions commented with the semicolons style.
pub open spec fn is_semicolon_extension(ext: Seq<char>) -> bool {
    ext == "ini"@
    || ext == "cfg"@
}

/// Whether the extension `ext` is commented with the semicolons style.
fn semicolon_extension(ext: &str) -> (r: bool)
    ensures
        r == is_semicolon_extension(ext@),
{
    str_eq(ext, "ini")
        || str_eq(ext, "cfg")
}

} // verus!
