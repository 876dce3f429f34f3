//! Tag rules for programming projects, and the decision half of the
//! version-control push-URL lookup.

use vstd::prelude::*;

use crate::text::{
    char_views, chars_eq, chars_of_str, extension_of, extension_of_chars, seq_lower, str_views,
    to_char_lists, to_lower, to_strings,
};

verus! {

/// The canonical language name for a source-file extension (ASCII
/// case-insensitive), if the extension is recognized.
pub open spec fn lang_of_extension(e: Seq<char>) -> Option<Seq<char>> {
    let l = seq_lower(e);
    if l == "rs"@ {
        Some("rust"@)
    } else if l == "py"@ {
        Some("python"@)
    } else if l == "js"@ {
        Some("javascript"@)
    } else if l == "java"@ {
        Some("java"@)
    } else if l == "cpp"@ {
        Some("cpp"@)
    } else if l == "c"@ {
        Some("c"@)
    } else if l == "cs"@ {
        Some("c#"@)
    } else if l == "go"@ {
        Some("go"@)
    } else if l == "rb"@ {
        Some("ruby"@)
    } else if l == "swift"@ {
        Some("swift"@)
    } else {
        None
    }
}

/// The language names seen across a listing's extensions.
pub open spec fn language_tag_set(names: Seq<Seq<char>>) -> Set<Seq<char>>
    decreases names.len(),
{
    if names.len() == 0 {
        Set::empty()
    } else {
        let rest = language_tag_set(names.drop_last());
        match extension_of(names.last()) {
            Some(e) => match lang_of_extension(e) {
                Some(t) => rest.insert(t),
                None => rest,
            },
            None => rest,
        }
    }
}

/// The full programming tag set: the languages seen, the two fixed tags, and
/// `"rust"` whenever the Rust package manifest is present by name.
pub open spec fn programming_tag_set(names: Seq<Seq<char>>) -> Set<Seq<char>> {
    let base = language_tag_set(names).insert("command-line"@).insert("software development"@);
    if names.contains("Cargo.toml"@) {
        base.insert("rust"@)
    } else {
        base
    }
}

/// Decides `lang_of_extension`.
pub fn lang_of_extension_chars(e: &Vec<char>) -> (r: Option<Vec<char>>)
    ensures
        r is Some <==> lang_of_extension(e@) is Some,
        r matches Some(t) ==> lang_of_extension(e@) == Some(t@),
{
    let l = to_lower(e);
    if chars_eq(&l, &chars_of_str("rs")) {
        Some(chars_of_str("rust"))
    } else if chars_eq(&l, &chars_of_str("py")) {
        Some(chars_of_str("python"))
    } else if chars_eq(&l, &chars_of_str("js")) {
        Some(chars_of_str("javascript"))
    } else if chars_eq(&l, &chars_of_str("java")) {
        Some(chars_of_str("java"))
    } else if chars_eq(&l, &chars_of_str("cpp")) {
        Some(chars_of_str("cpp"))
    } else if chars_eq(&l, &chars_of_str("c")) {
        Some(chars_of_str("c"))
    } else if chars_eq(&l, &chars_of_str("cs")) {
        Some(chars_of_str("c#"))
    } else if chars_eq(&l, &chars_of_str("go")) {
        Some(chars_of_str("go"))
    } else if chars_eq(&l, &chars_of_str("rb")) {
        Some(chars_of_str("ruby"))
    } else if chars_eq(&l, &chars_of_str("swift")) {
        Some(chars_of_str("swift"))
    } else {
        None
    }
}

/// Tags for a programming listing, as `programming_tag_set` describes them;
/// duplicates may occur and are the caller's to remove.
pub fn generate_programming_tags(entries: &Vec<String>) -> (tags: Vec<String>)
    ensures
        str_views(tags@).to_set() == programming_tag_set(str_views(entries@)),
{
    let names = to_char_lists(entries);
    let ghost gn = str_views(entries@);
    let mut out: Vec<Vec<char>> = Vec::new();
    let mut i: usize = 0;
    while i < names.len()
        invariant
            i <= names.len(),
            char_views(names@) == gn,
            names@.len() == gn.len(),
            char_views(out@).to_set() =~= language_tag_set(gn.take(i as int)),
        decreases names.len() - i,
    {
        proof {
            assert(gn[i as int] == names@[i as int]@);
            assert(gn.take(i + 1).drop_last() =~= gn.take(i as int));
            assert(gn.take(i + 1).last() == gn[i as int]);
        }
        match extension_of_chars(&names[i]) {
            Some(e) => {
                match lang_of_extension_chars(&e) {
                    Some(t) => {
                        proof {
                            crate::text::lemma_to_set_push(char_views(out@), t@);
                            assert(char_views(out@.push(t)) =~= char_views(out@).push(t@));
                        }
                        out.push(t);
                    },
                    None => {},
                }
            },
            None => {},
        }
        i += 1;
    }
    proof {
        assert(gn.take(gn.len() as int) =~= gn);
    }
    let t1 = chars_of_str("command-line");
    proof {
        crate::text::lemma_to_set_push(char_views(out@), t1@);
        assert(char_views(out@.push(t1)) =~= char_views(out@).push(t1@));
    }
    out.push(t1);
    let t2 = chars_of_str("software development");
    proof {
        crate::text::lemma_to_set_push(char_views(out@), t2@);
        assert(char_views(out@.push(t2)) =~= char_views(out@).push(t2@));
    }
    out.push(t2);
    let cargo = chars_of_str("Cargo.toml");
    let mut has_cargo = false;
    let mut j: usize = 0;
    while j < names.len() && !has_cargo
        invariant
            j <= names.len(),
            char_views(names@) == gn,
            names@.len() == gn.len(),
            cargo@ == "Cargo.toml"@,
            !has_cargo ==> forall|k: int| 0 <= k < j ==> gn[k] != "Cargo.toml"@,
            has_cargo ==> gn.contains("Cargo.toml"@),
        decreases
                names.len() - j + (if has_cargo {
                    0int
                } else {
                    1int
                }),
    {
        proof {
            assert(gn[j as int] == names@[j as int]@);
        }
        if chars_eq(&names[j], &cargo) {
            proof {
                assert(gn[j as int] == "Cargo.toml"@);
                assert(gn.contains("Cargo.toml"@));
            }
            has_cargo = true;
        } else {
            proof {
                assert(gn[j as int] != "Cargo.toml"@);
            }
            j += 1;
        }
    }
    proof {
        if !has_cargo {
            assert(!gn.contains("Cargo.toml"@)) by {
                if gn.contains("Cargo.toml"@) {
                    let k = choose|k: int| 0 <= k < gn.len() && gn[k] == "Cargo.toml"@;
                }
            }
        }
    }
    if has_cargo {
        let t3 = chars_of_str("rust");
        proof {
            crate::text::lemma_to_set_push(char_views(out@), t3@);
            assert(char_views(out@.push(t3)) =~= char_views(out@).push(t3@));
        }
        out.push(t3);
    }
    let tags = to_strings(&out);
    tags
}

/// Every programming listing's tag set holds the two fixed tags.
pub proof fn lemma_programming_fixed_tags(names: Seq<Seq<char>>)
    ensures
        programming_tag_set(names).contains("command-line"@),
        programming_tag_set(names).contains("software development"@),
{
}

/// The Rust manifest's presence by name forces the `"rust"` tag, whether or
/// not any Rust source file is listed.
pub proof fn lemma_manifest_forces_rust_tag(names: Seq<Seq<char>>)
    requires
        names.contains("Cargo.toml"@),
    ensures
        programming_tag_set(names).contains("rust"@),
{
}

/// Whether a character counts as whitespace when trimming tool output.
pub open spec fn is_space(c: char) -> bool {
    c == ' ' || c == '\t' || c == '\n' || c == '\r'
}

/// First index at or after `i` that holds a character that is not whitespace,
/// or the length.
pub open spec fn first_non_space(s: Seq<char>, i: int) -> int
    decreases s.len() - i,
{
    if i < 0 || i >= s.len() {
        s.len() as int
    } else if !is_space(s[i]) {
        i
    } else {
        first_non_space(s, i + 1)
    }
}

/// End of the last non-whitespace character strictly before `i`, or `0`.
pub open spec fn last_non_space_end(s: Seq<char>, i: int) -> int
    decreases i,
{
    if i <= 0 || i > s.len() {
        0
    } else if !is_space(s[i - 1]) {
        i
    } else {
        last_non_space_end(s, i - 1)
    }
}

/// The sequence with leading and trailing whitespace removed.
pub open spec fn trim_spec(s: Seq<char>) -> Seq<char> {
    let a = first_non_space(s, 0);
    let b = last_non_space_end(s, s.len() as int);
    if a < b {
        s.subrange(a, b)
    } else {
        Seq::empty()
    }
}

/// Index of the first `'\n'` at or after `i`, or the length.
pub open spec fn first_newline(s: Seq<char>, i: int) -> int
    decreases s.len() - i,
{
    if i < 0 || i >= s.len() {
        s.len() as int
    } else if s[i] == '\n' {
        i
    } else {
        first_newline(s, i + 1)
    }
}

/// The first line of a tool's output: everything before the first `'\n'`,
/// with one trailing `'\r'` dropped if present.
pub open spec fn first_line(s: Seq<char>) -> Seq<char> {
    let l = s.take(first_newline(s, 0));
    if l.len() > 0 && l.last() == '\r' {
        l.drop_last()
    } else {
        l
    }
}

/// Picks the remote to query from the listing step of the version-control
/// lookup: the first line of the tool's output.  Nothing is picked when the
/// directory carries no version-control metadata, when the tool failed, or
/// when it listed no remote — never an error.
pub fn first_remote(has_vcs_metadata: bool, remotes_output: Option<&String>) -> (r: Option<
    String,
>)
    ensures
        !has_vcs_metadata ==> r is None,
        has_vcs_metadata ==> match remotes_output {
            Some(out) => if out@.len() > 0 {
                r matches Some(n) && n@ == first_line(out@)
            } else {
                r is None
            },
            None => r is None,
        },
{
    if !has_vcs_metadata {
        return None;
    }
    let out = match remotes_output {
        Some(o) => o,
        None => {
            return None;
        },
    };
    let cs = chars_of_str(out.as_str());
    if cs.len() == 0 {
        return None;
    }
    let mut i: usize = 0;
    while i < cs.len() && cs[i] != '\n'
        invariant
            i <= cs.len(),
            first_newline(cs@, 0) == first_newline(cs@, i as int),
        decreases cs.len() - i,
    {
        i += 1;
    }
    let mut line: Vec<char> = Vec::new();
    let end: usize = if i > 0 && cs[i - 1] == '\r' {
        i - 1
    } else {
        i
    };
    let mut j: usize = 0;
    while j < end
        invariant
            end <= cs.len(),
            j <= end,
            line@ =~= cs@.subrange(0, j as int),
        decreases end - j,
    {
        line.push(cs[j]);
        j += 1;
    }
    proof {
        assert(cs@.take(first_newline(cs@, 0)) =~= cs@.subrange(0, i as int));
        assert(line@ =~= first_line(cs@));
    }
    Some(crate::text::string_of_chars(&line))
}

/// Finishes the version-control lookup from the push-URL query's output:
/// the output trimmed of surrounding whitespace on success, nothing on
/// failure — never an error.
pub fn push_url_from_output(push_output: Option<&String>) -> (r: Option<String>)
    ensures
        push_output is None ==> r is None,
        push_output matches Some(out) ==> r matches Some(u) && u@ == trim_spec(out@),
{
    let out = match push_output {
        Some(o) => o,
        None => {
            return None;
        },
    };
    let cs = chars_of_str(out.as_str());
    let mut a: usize = 0;
    while a < cs.len() && (cs[a] == ' ' || cs[a] == '\t' || cs[a] == '\n' || cs[a] == '\r')
        invariant
            a <= cs.len(),
            first_non_space(cs@, 0) == first_non_space(cs@, a as int),
        decreases cs.len() - a,
    {
        a += 1;
    }
    let mut b: usize = cs.len();
    while b > 0 && (cs[b - 1] == ' ' || cs[b - 1] == '\t' || cs[b - 1] == '\n' || cs[b - 1]
        == '\r')
        invariant
            b <= cs.len(),
            last_non_space_end(cs@, cs@.len() as int) == last_non_space_end(cs@, b as int),
        decreases b,
    {
        b -= 1;
    }
    let mut trimmed: Vec<char> = Vec::new();
    let mut j: usize = a;
    while j < b
        invariant
            a <= cs.len(),
            b <= cs.len(),
            a <= j,
            j <= b || j == a,
            trimmed@ =~= if a <= b {
                cs@.subrange(a as int, j as int)
            } else {
                Seq::<char>::empty()
            },
        decreases b - j,
    {
        trimmed.push(cs[j]);
        j += 1;
    }
    proof {
        assert(trimmed@ =~= trim_spec(cs@));
    }
    Some(crate::text::string_of_chars(&trimmed))
}

} // verus!
