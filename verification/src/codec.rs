//! The record's document form: a flat key-value text with one field per
//! line, quoted strings with backslash escapes, decimal timestamps and
//! bracketed string lists — and the parser that reads such a document back.
//!
//! The emitted text is what gets persisted; the parser accepts exactly the
//! emitter's output and the round trip returns the record unchanged.

use vstd::prelude::*;

use crate::project_info::{type_word, ProjectType, RecordView};

verus! {

pub open spec fn quote_mark() -> Seq<char> {
    seq!['"']
}

pub open spec fn newline() -> Seq<char> {
    seq!['\n']
}

pub open spec fn open_bracket() -> Seq<char> {
    seq!['[']
}

pub open spec fn close_bracket() -> Seq<char> {
    seq![']']
}

/// How one character is written inside a quoted string: quotes and
/// backslashes get a backslash escape, everything else stands for itself.
pub open spec fn esc_char(c: char) -> Seq<char> {
    if c == '"' {
        seq!['\\', '"']
    } else if c == '\\' {
        seq!['\\', '\\']
    } else {
        seq![c]
    }
}

/// A string's characters, each written as `esc_char` says.
pub open spec fn escape(s: Seq<char>) -> Seq<char>
    decreases s.len(),
{
    if s.len() == 0 {
        Seq::empty()
    } else {
        esc_char(s[0]) + escape(s.skip(1))
    }
}

/// The character an escape pair stands for, if the pair is legal.
pub open spec fn unesc(c: char) -> Option<char> {
    if c == '"' {
        Some('"')
    } else if c == '\\' {
        Some('\\')
    } else {
        None
    }
}

/// The decimal digit a character stands for, `-1` if it is no digit.
pub open spec fn digit_val(c: char) -> int {
    if c == '0' {
        0
    } else if c == '1' {
        1
    } else if c == '2' {
        2
    } else if c == '3' {
        3
    } else if c == '4' {
        4
    } else if c == '5' {
        5
    } else if c == '6' {
        6
    } else if c == '7' {
        7
    } else if c == '8' {
        8
    } else if c == '9' {
        9
    } else {
        -1
    }
}

pub open spec fn is_digit(c: char) -> bool {
    digit_val(c) >= 0
}

/// The character for a decimal digit.
pub open spec fn digit_char(d: int) -> char {
    if d == 0 {
        '0'
    } else if d == 1 {
        '1'
    } else if d == 2 {
        '2'
    } else if d == 3 {
        '3'
    } else if d == 4 {
        '4'
    } else if d == 5 {
        '5'
    } else if d == 6 {
        '6'
    } else if d == 7 {
        '7'
    } else if d == 8 {
        '8'
    } else {
        '9'
    }
}

/// The decimal digits of a nonnegative number, most significant first.
pub open spec fn dec_digits(n: int) -> Seq<char>
    decreases n,
{
    if n < 10 {
        seq![digit_char(n)]
    } else {
        dec_digits(n / 10).push(digit_char(n % 10))
    }
}

/// A possibly negative number in decimal.
pub open spec fn int_chars(t: int) -> Seq<char> {
    if t < 0 {
        seq!['-'] + dec_digits(-t)
    } else {
        dec_digits(t)
    }
}

/// A string in its quoted, escaped document form.
pub open spec fn quote_str(s: Seq<char>) -> Seq<char> {
    quote_mark() + escape(s) + quote_mark()
}

/// Second and later list items, each preceded by a comma separator.
pub open spec fn items_tail_chars(items: Seq<Seq<char>>) -> Seq<char>
    decreases items.len(),
{
    if items.len() == 0 {
        Seq::empty()
    } else {
        seq![',', ' '] + quote_str(items[0]) + items_tail_chars(items.skip(1))
    }
}

/// The interior of a bracketed list of quoted strings.
pub open spec fn items_chars(items: Seq<Seq<char>>) -> Seq<char>
    decreases items.len(),
{
    if items.len() == 0 {
        Seq::empty()
    } else {
        quote_str(items[0]) + items_tail_chars(items.skip(1))
    }
}

/// A whole bracketed list.
pub open spec fn list_chars(items: Seq<Seq<char>>) -> Seq<char> {
    open_bracket() + items_chars(items) + close_bracket()
}

/// One string-valued line: `key = "value"` and a line break, then the rest
/// of the document.
pub open spec fn str_field(key: Seq<char>, value: Seq<char>, rest: Seq<char>) -> Seq<char> {
    key + (quote_mark() + (escape(value) + (quote_mark() + (newline() + rest))))
}

/// One integer-valued line.
pub open spec fn int_field(key: Seq<char>, t: int, rest: Seq<char>) -> Seq<char> {
    key + (int_chars(t) + (newline() + rest))
}

/// One list-valued line.
pub open spec fn list_field(key: Seq<char>, items: Seq<Seq<char>>, rest: Seq<char>) -> Seq<char> {
    key + (open_bracket() + (items_chars(items) + (close_bracket() + (newline() + rest))))
}

/// The project-type line.
pub open spec fn type_field(t: ProjectType, rest: Seq<char>) -> Seq<char> {
    "project_type = "@ + (quote_mark() + (type_word(t) + (quote_mark() + (newline() + rest))))
}

/// The document's optional last line.
pub open spec fn git_tail(git_url: Option<Seq<char>>) -> Seq<char> {
    match git_url {
        Some(u) => str_field("git_url = "@, u, Seq::empty()),
        None => Seq::empty(),
    }
}

/// The full document of a record.
pub open spec fn record_chars(r: RecordView) -> Seq<char> {
    str_field(
        "name = "@,
        r.name,
        str_field(
            "alias = "@,
            r.alias,
            type_field(
                r.project_type,
                list_field(
                    "tags = "@,
                    r.tags,
                    int_field(
                        "date_created = "@,
                        r.date_created,
                        int_field(
                            "date_modified = "@,
                            r.date_modified,
                            list_field("notes = "@, r.notes, git_tail(r.git_url)),
                        ),
                    ),
                ),
            ),
        ),
    )
}

/// Consumes an exact literal, or fails.
pub open spec fn p_expect(s: Seq<char>, lit: Seq<char>) -> Option<Seq<char>> {
    if lit.len() <= s.len() && s.take(lit.len() as int) == lit {
        Some(s.skip(lit.len() as int))
    } else {
        None
    }
}

/// Reads an escaped string body up to and including its closing quote,
/// returning the unescaped content and what follows.
pub open spec fn p_str_body(s: Seq<char>) -> Option<(Seq<char>, Seq<char>)>
    decreases s.len(),
{
    if s.len() == 0 {
        None
    } else if s[0] == '"' {
        Some((Seq::empty(), s.skip(1)))
    } else if s[0] == '\\' {
        if s.len() < 2 {
            None
        } else {
            match unesc(s[1]) {
                Some(c) => match p_str_body(s.skip(2)) {
                    Some((t, r)) => Some((seq![c] + t, r)),
                    None => None,
                },
                None => None,
            }
        }
    } else {
        match p_str_body(s.skip(1)) {
            Some((t, r)) => Some((seq![s[0]] + t, r)),
            None => None,
        }
    }
}

/// Folds a maximal digit run into a value, starting from `acc`.
pub open spec fn p_uint_acc(s: Seq<char>, acc: int) -> (int, Seq<char>)
    decreases s.len(),
{
    if s.len() > 0 && is_digit(s[0]) {
        p_uint_acc(s.skip(1), acc * 10 + digit_val(s[0]))
    } else {
        (acc, s)
    }
}

/// Reads one or more decimal digits.
pub open spec fn p_uint(s: Seq<char>) -> Option<(int, Seq<char>)> {
    if s.len() > 0 && is_digit(s[0]) {
        Some(p_uint_acc(s, 0))
    } else {
        None
    }
}

/// Reads a decimal integer with an optional leading minus sign.
pub open spec fn p_int(s: Seq<char>) -> Option<(int, Seq<char>)> {
    if s.len() > 0 && s[0] == '-' {
        match p_uint(s.skip(1)) {
            Some((n, r)) => Some((-n, r)),
            None => None,
        }
    } else {
        match p_uint(s) {
            Some((n, r)) => Some((n, r)),
            None => None,
        }
    }
}

/// After one complete list item: either the closing bracket, or a comma
/// separator and a further quoted item.
pub open spec fn p_items_rest(s: Seq<char>) -> Option<(Seq<Seq<char>>, Seq<char>)>
    decreases s.len(),
    via p_items_rest_decreases
{
    if s.len() > 0 && s[0] == ']' {
        Some((Seq::empty(), s.skip(1)))
    } else if s.len() >= 3 && s[0] == ',' && s[1] == ' ' && s[2] == '"' {
        match p_str_body(s.skip(3)) {
            Some((t, r)) => match p_items_rest(r) {
                Some((ts, r2)) => Some((seq![t] + ts, r2)),
                None => None,
            },
            None => None,
        }
    } else {
        None
    }
}

#[via_fn]
proof fn p_items_rest_decreases(s: Seq<char>) {
    if s.len() >= 3 && s[0] == ',' && s[1] == ' ' && s[2] == '"' {
        lemma_p_str_body_shrinks(s.skip(3));
    }
}

/// The interior of a list after its opening bracket, closing bracket
/// included.
pub open spec fn p_list(s: Seq<char>) -> Option<(Seq<Seq<char>>, Seq<char>)> {
    if s.len() > 0 && s[0] == ']' {
        Some((Seq::empty(), s.skip(1)))
    } else if s.len() > 0 && s[0] == '"' {
        match p_str_body(s.skip(1)) {
            Some((t, r)) => match p_items_rest(r) {
                Some((ts, r2)) => Some((seq![t] + ts, r2)),
                None => None,
            },
            None => None,
        }
    } else {
        None
    }
}

/// One string-valued line, from key through line break.
pub open spec fn p_str_field(s: Seq<char>, key: Seq<char>) -> Option<(Seq<char>, Seq<char>)> {
    match p_expect(s, key) {
        Some(r1) => match p_expect(r1, quote_mark()) {
            Some(r2) => match p_str_body(r2) {
                Some((v, r3)) => match p_expect(r3, newline()) {
                    Some(r4) => Some((v, r4)),
                    None => None,
                },
                None => None,
            },
            None => None,
        },
        None => None,
    }
}

/// One integer-valued line, from key through line break.
pub open spec fn p_int_field(s: Seq<char>, key: Seq<char>) -> Option<(int, Seq<char>)> {
    match p_expect(s, key) {
        Some(r1) => match p_int(r1) {
            Some((t, r2)) => match p_expect(r2, newline()) {
                Some(r3) => Some((t, r3)),
                None => None,
            },
            None => None,
        },
        None => None,
    }
}

/// One list-valued line, from key through line break.
pub open spec fn p_list_field(s: Seq<char>, key: Seq<char>) -> Option<(Seq<Seq<char>>, Seq<char>)> {
    match p_expect(s, key) {
        Some(r1) => match p_expect(r1, open_bracket()) {
            Some(r2) => match p_list(r2) {
                Some((items, r3)) => match p_expect(r3, newline()) {
                    Some(r4) => Some((items, r4)),
                    None => None,
                },
                None => None,
            },
            None => None,
        },
        None => None,
    }
}

/// The project-type line: one of the three type words, quoted.
pub open spec fn p_type_field(s: Seq<char>) -> Option<(ProjectType, Seq<char>)> {
    match p_expect(s, "project_type = "@) {
        Some(r1) => match p_expect(r1, quote_mark()) {
            Some(r2) => match p_type_word(r2) {
                Some((t, r3)) => match p_expect(r3, quote_mark()) {
                    Some(r4) => match p_expect(r4, newline()) {
                        Some(r5) => Some((t, r5)),
                        None => None,
                    },
                    None => None,
                },
                None => None,
            },
            None => None,
        },
        None => None,
    }
}

/// One of the three type words.
pub open spec fn p_type_word(s: Seq<char>) -> Option<(ProjectType, Seq<char>)> {
    match p_expect(s, "programming"@) {
        Some(r) => Some((ProjectType::Programming, r)),
        None => match p_expect(s, "music"@) {
            Some(r) => Some((ProjectType::Music, r)),
            None => match p_expect(s, "unknown"@) {
                Some(r) => Some((ProjectType::Unknown, r)),
                None => None,
            },
        },
    }
}

/// A whole document: every field in order, the optional final line, nothing
/// after it, and timestamps within the machine range.
pub open spec fn parse_record(s: Seq<char>) -> Option<RecordView> {
    match p_str_field(s, "name = "@) {
        Some((name, s1)) => match p_str_field(s1, "alias = "@) {
            Some((alias, s2)) => match p_type_field(s2) {
                Some((pt, s3)) => match p_list_field(s3, "tags = "@) {
                    Some((tags, s4)) => match p_int_field(s4, "date_created = "@) {
                        Some((dc, s5)) => match p_int_field(s5, "date_modified = "@) {
                            Some((dm, s6)) => match p_list_field(s6, "notes = "@) {
                                Some((notes, s7)) => if !(i64::MIN <= dc <= i64::MAX && i64::MIN
                                    <= dm <= i64::MAX) {
                                    None
                                } else if s7.len() == 0 {
                                    Some(
                                        RecordView {
                                            name,
                                            alias,
                                            project_type: pt,
                                            tags,
                                            date_created: dc,
                                            date_modified: dm,
                                            notes,
                                            git_url: None,
                                        },
                                    )
                                } else {
                                    match p_str_field(s7, "git_url = "@) {
                                        Some((u, s8)) => if s8.len() == 0 {
                                            Some(
                                                RecordView {
                                                    name,
                                                    alias,
                                                    project_type: pt,
                                                    tags,
                                                    date_created: dc,
                                                    date_modified: dm,
                                                    notes,
                                                    git_url: Some(u),
                                                },
                                            )
                                        } else {
                                            None
                                        },
                                        None => None,
                                    }
                                },
                                None => None,
                            },
                            None => None,
                        },
                        None => None,
                    },
                    None => None,
                },
                None => None,
            },
            None => None,
        },
        None => None,
    }
}

/// A successful string-body parse consumes at least the closing quote.
proof fn lemma_p_str_body_shrinks(s: Seq<char>)
    ensures
        p_str_body(s) matches Some((t, r)) ==> r.len() < s.len(),
    decreases s.len(),
{
    if s.len() == 0 {
    } else if s[0] == '"' {
    } else if s[0] == '\\' {
        if s.len() >= 2 {
            lemma_p_str_body_shrinks(s.skip(2));
        }
    } else {
        lemma_p_str_body_shrinks(s.skip(1));
    }
}

/// Consuming a literal off the front of a concatenation leaves the tail.
proof fn lemma_p_expect(lit: Seq<char>, rest: Seq<char>)
    ensures
        p_expect(lit + rest, lit) == Some(rest),
{
    assert((lit + rest).take(lit.len() as int) =~= lit);
    assert((lit + rest).skip(lit.len() as int) =~= rest);
}

/// Parsing an escaped string body off its own output returns the string.
proof fn lemma_p_str_body_escape(x: Seq<char>, rest: Seq<char>)
    ensures
        p_str_body(escape(x) + quote_mark() + rest) == Some((x, rest)),
    decreases x.len(),
{
    let s = escape(x) + quote_mark() + rest;
    if x.len() == 0 {
        assert(s =~= quote_mark() + rest);
        assert(s[0] == '"');
        assert(s.skip(1) =~= rest);
        assert(p_str_body(s) == Some((Seq::<char>::empty(), rest)));
        assert(Seq::<char>::empty() =~= x);
    } else {
        let tail = escape(x.skip(1)) + quote_mark() + rest;
        assert(escape(x) == esc_char(x[0]) + escape(x.skip(1)));
        assert(s =~= esc_char(x[0]) + tail);
        lemma_p_str_body_escape(x.skip(1), rest);
        if x[0] == '"' {
            assert(s[0] == '\\');
            assert(s[1] == '"');
            assert(s.len() >= 2);
            assert(s.skip(2) =~= tail);
            assert(p_str_body(s) == Some((seq!['"'] + x.skip(1), rest)));
            assert(seq!['"'] + x.skip(1) =~= x);
        } else if x[0] == '\\' {
            assert(s[0] == '\\');
            assert(s[1] == '\\');
            assert(s.len() >= 2);
            assert(s.skip(2) =~= tail);
            assert(p_str_body(s) == Some((seq!['\\'] + x.skip(1), rest)));
            assert(seq!['\\'] + x.skip(1) =~= x);
        } else {
            assert(s[0] == x[0]);
            assert(s[0] != '"' && s[0] != '\\');
            assert(s.skip(1) =~= tail);
            assert(p_str_body(s) == Some((seq![x[0]] + x.skip(1), rest)));
            assert(seq![x[0]] + x.skip(1) =~= x);
        }
    }
}

pub open spec fn pow10(k: nat) -> int
    decreases k,
{
    if k == 0 {
        1int
    } else {
        10 * pow10((k - 1) as nat)
    }
}

/// The digits of a number are digits, and there is at least one.
proof fn lemma_dec_digits_digits(n: int)
    requires
        n >= 0,
    ensures
        dec_digits(n).len() >= 1,
        is_digit(dec_digits(n)[0]),
    decreases n,
{
    if n >= 10 {
        lemma_dec_digits_digits(n / 10);
    }
}

/// Folding the digit run of `n`'s decimal form shifts the accumulator by
/// the run's width and adds `n`.
proof fn lemma_p_uint_acc_digits(n: int, acc: int, rest: Seq<char>)
    requires
        n >= 0,
    ensures
        p_uint_acc(dec_digits(n) + rest, acc) == p_uint_acc(
            rest,
            acc * pow10(dec_digits(n).len() as nat) + n,
        ),
    decreases n,
{
    let s = dec_digits(n) + rest;
    if n < 10 {
        assert(dec_digits(n) =~= seq![digit_char(n)]);
        assert(s[0] == digit_char(n));
        assert(is_digit(s[0]) && digit_val(s[0]) == n);
        assert(s.skip(1) =~= rest);
        assert(pow10(0) == 1);
        assert(pow10(1) == 10);
        assert(p_uint_acc(s, acc) == p_uint_acc(rest, acc * 10 + n));
    } else {
        let hi = dec_digits(n / 10);
        let c = digit_char(n % 10);
        assert(dec_digits(n) == hi.push(c));
        assert(s =~= hi + (seq![c] + rest));
        lemma_p_uint_acc_digits(n / 10, acc, seq![c] + rest);
        let l_hi = hi.len() as nat;
        let acc2 = acc * pow10(l_hi) + n / 10;
        assert(p_uint_acc(s, acc) == p_uint_acc(seq![c] + rest, acc2));
        assert((seq![c] + rest)[0] == c);
        assert(is_digit(c) && digit_val(c) == n % 10) by {
            assert(0 <= n % 10 < 10);
        }
        assert((seq![c] + rest).skip(1) =~= rest);
        assert(p_uint_acc(seq![c] + rest, acc2) == p_uint_acc(rest, acc2 * 10 + n % 10));
        assert(dec_digits(n).len() == l_hi + 1);
        assert(pow10((l_hi + 1) as nat) == 10 * pow10(l_hi));
        let p_hi = pow10(l_hi);
        assert((acc * p_hi + n / 10) * 10 + n % 10 == acc * (10 * p_hi) + ((n / 10) * 10 + n
            % 10)) by (nonlinear_arith);
        assert((n / 10) * 10 + n % 10 == n) by (nonlinear_arith)
            requires
                n >= 10,
        ;
    }
}

/// Parsing a number off its own decimal form, followed by anything that is
/// no digit, returns the number.
proof fn lemma_p_uint_digits(n: int, rest: Seq<char>)
    requires
        n >= 0,
        rest.len() == 0 || !is_digit(rest[0]),
    ensures
        p_uint(dec_digits(n) + rest) == Some((n, rest)),
{
    let s = dec_digits(n) + rest;
    lemma_dec_digits_digits(n);
    assert(s[0] == dec_digits(n)[0]);
    lemma_p_uint_acc_digits(n, 0, rest);
    assert(0 * pow10(dec_digits(n).len() as nat) == 0) by (nonlinear_arith);
    if rest.len() > 0 {
        assert(p_uint_acc(rest, n) == (n, rest));
    }
}

/// The same for a possibly negative number.
proof fn lemma_p_int_chars(t: int, rest: Seq<char>)
    requires
        rest.len() == 0 || !is_digit(rest[0]),
    ensures
        p_int(int_chars(t) + rest) == Some((t, rest)),
{
    let s = int_chars(t) + rest;
    if t < 0 {
        assert(s =~= seq!['-'] + (dec_digits(-t) + rest));
        assert(s[0] == '-');
        assert(s.skip(1) =~= dec_digits(-t) + rest);
        lemma_p_uint_digits(-t, rest);
    } else {
        lemma_dec_digits_digits(t);
        assert(s[0] == dec_digits(t)[0]);
        assert(s[0] != '-');
        lemma_p_uint_digits(t, rest);
    }
}

/// Parsing the tail of a list off its own output returns the items.
proof fn lemma_p_items_tail(items: Seq<Seq<char>>, rest: Seq<char>)
    ensures
        p_items_rest(items_tail_chars(items) + close_bracket() + rest) == Some((items, rest)),
    decreases items.len(),
{
    let s = items_tail_chars(items) + close_bracket() + rest;
    if items.len() == 0 {
        assert(s =~= close_bracket() + rest);
        assert(s[0] == ']');
        assert(s.skip(1) =~= rest);
        assert(Seq::<Seq<char>>::empty() =~= items);
    } else {
        let tail = items_tail_chars(items.skip(1)) + close_bracket() + rest;
        assert(items_tail_chars(items) == seq![',', ' '] + quote_str(items[0])
            + items_tail_chars(items.skip(1)));
        assert(s =~= seq![',', ' '] + (quote_str(items[0]) + tail));
        assert(s.len() >= 3);
        assert(s[0] == ',' && s[1] == ' ' && s[2] == '"');
        assert(s[0] != ']');
        assert(s.skip(3) =~= escape(items[0]) + quote_mark() + tail);
        lemma_p_str_body_escape(items[0], tail);
        lemma_p_items_tail(items.skip(1), rest);
        assert(p_items_rest(s) == Some((seq![items[0]] + items.skip(1), rest)));
        assert(seq![items[0]] + items.skip(1) =~= items);
    }
}

/// Parsing a list interior off its own output returns the items.
proof fn lemma_p_list(items: Seq<Seq<char>>, rest: Seq<char>)
    ensures
        p_list(items_chars(items) + close_bracket() + rest) == Some((items, rest)),
{
    let s = items_chars(items) + close_bracket() + rest;
    if items.len() == 0 {
        assert(s =~= close_bracket() + rest);
        assert(s[0] == ']');
        assert(s.skip(1) =~= rest);
        assert(Seq::<Seq<char>>::empty() =~= items);
    } else {
        let tail = items_tail_chars(items.skip(1)) + close_bracket() + rest;
        assert(items_chars(items) == quote_str(items[0]) + items_tail_chars(items.skip(1)));
        assert(s =~= quote_mark() + (escape(items[0]) + (quote_mark() + tail)));
        assert(s[0] == '"');
        assert(s[0] != ']');
        assert(s.skip(1) =~= escape(items[0]) + quote_mark() + tail);
        lemma_p_str_body_escape(items[0], tail);
        lemma_p_items_tail(items.skip(1), rest);
        assert(p_list(s) == Some((seq![items[0]] + items.skip(1), rest)));
        assert(seq![items[0]] + items.skip(1) =~= items);
    }
}

/// Parsing a string field off its own output returns the value.
proof fn lemma_p_str_field(key: Seq<char>, value: Seq<char>, rest: Seq<char>)
    ensures
        p_str_field(str_field(key, value, rest), key) == Some((value, rest)),
{
    let s = str_field(key, value, rest);
    lemma_p_expect(key, quote_mark() + (escape(value) + (quote_mark() + (newline() + rest))));
    lemma_p_expect(quote_mark(), escape(value) + (quote_mark() + (newline() + rest)));
    assert(escape(value) + (quote_mark() + (newline() + rest)) =~= escape(value) + quote_mark()
        + (newline() + rest));
    lemma_p_str_body_escape(value, newline() + rest);
    lemma_p_expect(newline(), rest);
}

/// Parsing an integer field off its own output returns the number.
proof fn lemma_p_int_field(key: Seq<char>, t: int, rest: Seq<char>)
    ensures
        p_int_field(int_field(key, t, rest), key) == Some((t, rest)),
{
    lemma_p_expect(key, int_chars(t) + (newline() + rest));
    assert((newline() + rest).len() > 0 && !is_digit((newline() + rest)[0]));
    lemma_p_int_chars(t, newline() + rest);
    lemma_p_expect(newline(), rest);
}

/// Parsing a list field off its own output returns the items.
proof fn lemma_p_list_field(key: Seq<char>, items: Seq<Seq<char>>, rest: Seq<char>)
    ensures
        p_list_field(list_field(key, items, rest), key) == Some((items, rest)),
{
    lemma_p_expect(
        key,
        open_bracket() + (items_chars(items) + (close_bracket() + (newline() + rest))),
    );
    lemma_p_expect(open_bracket(), items_chars(items) + (close_bracket() + (newline() + rest)));
    assert(items_chars(items) + (close_bracket() + (newline() + rest)) =~= items_chars(items)
        + close_bracket() + (newline() + rest));
    lemma_p_list(items, newline() + rest);
    lemma_p_expect(newline(), rest);
}

/// Parsing the type field off its own output returns the type.
proof fn lemma_p_type_field(t: ProjectType, rest: Seq<char>)
    ensures
        p_type_field(type_field(t, rest)) == Some((t, rest)),
{
    reveal_strlit("programming");
    reveal_strlit("music");
    reveal_strlit("unknown");
    let after_word = quote_mark() + (newline() + rest);
    lemma_p_expect("project_type = "@, quote_mark() + (type_word(t) + after_word));
    lemma_p_expect(quote_mark(), type_word(t) + after_word);
    let w = type_word(t) + after_word;
    match t {
        ProjectType::Programming => {
            lemma_p_expect("programming"@, after_word);
        },
        ProjectType::Music => {
            assert(w[0] == 'm');
            if p_expect(w, "programming"@) is Some {
                assert(w.take("programming"@.len() as int)[0] == 'm');
                assert(false);
            }
            lemma_p_expect("music"@, after_word);
        },
        ProjectType::Unknown => {
            assert(w[0] == 'u');
            if p_expect(w, "programming"@) is Some {
                assert(w.take("programming"@.len() as int)[0] == 'u');
                assert(false);
            }
            if p_expect(w, "music"@) is Some {
                assert(w.take("music"@.len() as int)[0] == 'u');
                assert(false);
            }
            lemma_p_expect("unknown"@, after_word);
        },
    }
    lemma_p_expect(quote_mark(), newline() + rest);
    lemma_p_expect(newline(), rest);
}

/// Appending one character extends the escaped form by that character's
/// escape.
proof fn lemma_escape_push(a: Seq<char>, c: char)
    ensures
        escape(a.push(c)) == escape(a) + esc_char(c),
    decreases a.len(),
{
    if a.len() == 0 {
        assert(a.push(c)[0] == c);
        assert(a.push(c).skip(1) =~= Seq::<char>::empty());
        assert(esc_char(c) + escape(Seq::<char>::empty()) =~= esc_char(c));
        assert(escape(a) + esc_char(c) =~= esc_char(c));
    } else {
        assert(a.push(c)[0] == a[0]);
        assert(a.push(c).skip(1) =~= a.skip(1).push(c));
        lemma_escape_push(a.skip(1), c);
        assert(esc_char(a[0]) + (escape(a.skip(1)) + esc_char(c)) =~= (esc_char(a[0]) + escape(
            a.skip(1),
        )) + esc_char(c));
    }
}

/// Appending one item extends a list tail by a separator and the quoted
/// item.
proof fn lemma_items_tail_push(a: Seq<Seq<char>>, x: Seq<char>)
    ensures
        items_tail_chars(a.push(x)) == items_tail_chars(a) + (seq![',', ' '] + quote_str(x)),
    decreases a.len(),
{
    if a.len() == 0 {
        assert(a.push(x)[0] == x);
        assert(a.push(x).skip(1) =~= Seq::<Seq<char>>::empty());
        assert(seq![',', ' '] + quote_str(x) + items_tail_chars(Seq::<Seq<char>>::empty()) =~= seq![
            ',', ' '] + quote_str(x));
        assert(items_tail_chars(a) + (seq![',', ' '] + quote_str(x)) =~= seq![',', ' ']
            + quote_str(x));
    } else {
        assert(a.push(x)[0] == a[0]);
        assert(a.push(x).skip(1) =~= a.skip(1).push(x));
        lemma_items_tail_push(a.skip(1), x);
        assert(seq![',', ' '] + quote_str(a[0]) + (items_tail_chars(a.skip(1)) + (seq![',', ' ']
            + quote_str(x))) =~= (seq![',', ' '] + quote_str(a[0]) + items_tail_chars(a.skip(1)))
            + (seq![',', ' '] + quote_str(x)));
    }
}

/// The same at the level of a whole nonempty list interior.
proof fn lemma_items_chars_push(a: Seq<Seq<char>>, x: Seq<char>)
    requires
        a.len() >= 1,
    ensures
        items_chars(a.push(x)) == items_chars(a) + (seq![',', ' '] + quote_str(x)),
{
    assert(a.push(x)[0] == a[0]);
    assert(a.push(x).skip(1) =~= a.skip(1).push(x));
    lemma_items_tail_push(a.skip(1), x);
    assert(quote_str(a[0]) + (items_tail_chars(a.skip(1)) + (seq![',', ' '] + quote_str(x)))
        =~= (quote_str(a[0]) + items_tail_chars(a.skip(1))) + (seq![',', ' '] + quote_str(x)));
}

/// Appends a literal's characters.
fn push_lit(out: &mut Vec<char>, lit: &str)
    ensures
        final (out)@ == old(out)@ + lit@,
{
    let mut piece = crate::text::chars_of_str(lit);
    out.append(&mut piece);
}

/// Appends a string's characters in their escaped form.
fn push_escaped(out: &mut Vec<char>, s: &Vec<char>)
    ensures
        final (out)@ == old(out)@ + escape(s@),
{
    let ghost base = out@;
    let mut i: usize = 0;
    proof {
        assert(escape(s@.take(0)) =~= Seq::<char>::empty());
        assert(base + Seq::<char>::empty() =~= base);
    }
    while i < s.len()
        invariant
            i <= s.len(),
            out@ == base + escape(s@.take(i as int)),
        decreases s.len() - i,
    {
        let ghost prev = out@;
        let c = s[i];
        if c == '"' {
            out.push('\\');
            out.push('"');
            proof {
                assert(out@ =~= prev + esc_char(c));
            }
        } else if c == '\\' {
            out.push('\\');
            out.push('\\');
            proof {
                assert(out@ =~= prev + esc_char(c));
            }
        } else {
            out.push(c);
            proof {
                assert(out@ =~= prev + esc_char(c));
            }
        }
        proof {
            assert(s@.take(i + 1) =~= s@.take(i as int).push(s@[i as int]));
            lemma_escape_push(s@.take(i as int), s@[i as int]);
            assert(out@ =~= base + escape(s@.take(i + 1)));
        }
        i += 1;
    }
    proof {
        assert(s@.take(s@.len() as int) =~= s@);
    }
}

/// Appends the decimal digits of a nonnegative number.
fn push_u64_digits(out: &mut Vec<char>, n: u64)
    ensures
        final (out)@ == old(out)@ + dec_digits(n as int),
    decreases n,
{
    if n >= 10 {
        push_u64_digits(out, n / 10);
    }
    let ghost prev = out@;
    let d = n % 10;
    let c = if d == 0 {
        '0'
    } else if d == 1 {
        '1'
    } else if d == 2 {
        '2'
    } else if d == 3 {
        '3'
    } else if d == 4 {
        '4'
    } else if d == 5 {
        '5'
    } else if d == 6 {
        '6'
    } else if d == 7 {
        '7'
    } else if d == 8 {
        '8'
    } else {
        '9'
    };
    proof {
        assert(c == digit_char((n % 10) as int));
    }
    out.push(c);
    proof {
        if n < 10 {
            assert(n % 10 == n);
            assert(out@ =~= old(out)@ + dec_digits(n as int));
        } else {
            assert(out@ =~= old(out)@ + dec_digits((n / 10) as int).push(
                digit_char((n % 10) as int),
            ));
        }
    }
}

/// Appends a possibly negative number in decimal.
fn push_i64(out: &mut Vec<char>, t: i64)
    ensures
        final (out)@ == old(out)@ + int_chars(t as int),
{
    if t >= 0 {
        push_u64_digits(out, t as u64);
    } else {
        out.push('-');
        let ghost mid = out@;
        proof {
            assert(mid =~= old(out)@ + seq!['-']);
        }
        let mag: u64 = if t == i64::MIN {
            9223372036854775808u64
        } else {
            (-t) as u64
        };
        proof {
            assert(mag as int == -(t as int));
        }
        push_u64_digits(out, mag);
        proof {
            assert(out@ =~= old(out)@ + (seq!['-'] + dec_digits(-(t as int))));
        }
    }
}

/// Appends a string in its quoted form.
fn push_quoted(out: &mut Vec<char>, s: &Vec<char>)
    ensures
        final (out)@ == old(out)@ + quote_str(s@),
{
    out.push('"');
    let ghost m1 = out@;
    proof {
        assert(m1 =~= old(out)@ + quote_mark());
    }
    push_escaped(out, s);
    out.push('"');
    proof {
        assert(out@ =~= old(out)@ + (quote_mark() + escape(s@) + quote_mark()));
    }
}

/// Appends a whole bracketed list of quoted strings.
fn push_list(out: &mut Vec<char>, items: &Vec<Vec<char>>)
    ensures
        final (out)@ == old(out)@ + list_chars(crate::text::char_views(items@)),
{
    let ghost gv = crate::text::char_views(items@);
    out.push('[');
    let ghost base = out@;
    proof {
        assert(base =~= old(out)@ + open_bracket());
    }
    if items.len() > 0 {
        push_quoted(out, &items[0]);
        proof {
            assert(gv.take(1) =~= seq![gv[0]]);
            assert(items_tail_chars(gv.take(1).skip(1)) =~= Seq::<char>::empty());
            assert(items_chars(gv.take(1)) =~= quote_str(gv[0]));
            assert(out@ =~= base + items_chars(gv.take(1)));
        }
        let mut i: usize = 1;
        while i < items.len()
            invariant
                1 <= i <= items.len(),
                gv == crate::text::char_views(items@),
                gv.len() == items@.len(),
                out@ == base + items_chars(gv.take(i as int)),
            decreases items.len() - i,
        {
            let ghost prev = out@;
            out.push(',');
            out.push(' ');
            push_quoted(out, &items[i]);
            proof {
                assert(gv[i as int] == items@[i as int]@);
                assert(out@ =~= prev + (seq![',', ' '] + quote_str(gv[i as int])));
                assert(gv.take(i + 1) =~= gv.take(i as int).push(gv[i as int]));
                lemma_items_chars_push(gv.take(i as int), gv[i as int]);
                assert(out@ =~= base + items_chars(gv.take(i + 1)));
            }
            i += 1;
        }
        proof {
            assert(gv.take(gv.len() as int) =~= gv);
        }
    } else {
        proof {
            assert(items_chars(gv) =~= Seq::<char>::empty());
            assert(out@ =~= base + items_chars(gv));
        }
    }
    out.push(']');
    proof {
        assert(out@ =~= old(out)@ + (open_bracket() + items_chars(gv) + close_bracket()));
    }
}

/// A string field's line on its own, with no continuation.
pub open spec fn str_flat(key: Seq<char>, value: Seq<char>) -> Seq<char> {
    key + quote_mark() + escape(value) + quote_mark() + newline()
}

/// An integer field's line on its own.
pub open spec fn int_flat(key: Seq<char>, t: int) -> Seq<char> {
    key + int_chars(t) + newline()
}

/// A list field's line on its own.
pub open spec fn list_flat(key: Seq<char>, items: Seq<Seq<char>>) -> Seq<char> {
    key + list_chars(items) + newline()
}

/// The type field's line on its own.
pub open spec fn type_flat(t: ProjectType) -> Seq<char> {
    "project_type = "@ + quote_mark() + type_word(t) + quote_mark() + newline()
}

proof fn lemma_str_field_flat(key: Seq<char>, value: Seq<char>, rest: Seq<char>)
    ensures
        str_field(key, value, rest) == str_flat(key, value) + rest,
{
    assert(str_field(key, value, rest) =~= str_flat(key, value) + rest);
}

proof fn lemma_int_field_flat(key: Seq<char>, t: int, rest: Seq<char>)
    ensures
        int_field(key, t, rest) == int_flat(key, t) + rest,
{
    assert(int_field(key, t, rest) =~= int_flat(key, t) + rest);
}

proof fn lemma_list_field_flat(key: Seq<char>, items: Seq<Seq<char>>, rest: Seq<char>)
    ensures
        list_field(key, items, rest) == list_flat(key, items) + rest,
{
    assert(list_field(key, items, rest) =~= list_flat(key, items) + rest);
}

proof fn lemma_type_field_flat(t: ProjectType, rest: Seq<char>)
    ensures
        type_field(t, rest) == type_flat(t) + rest,
{
    assert(type_field(t, rest) =~= type_flat(t) + rest);
}

/// Emits one string-valued line.
fn emit_str_field(out: &mut Vec<char>, key: &str, value: &str)
    ensures
        final (out)@ == old(out)@ + str_flat(key@, value@),
{
    push_lit(out, key);
    out.push('"');
    let value_chars = crate::text::chars_of_str(value);
    push_escaped(out, &value_chars);
    out.push('"');
    out.push('\n');
    proof {
        assert(out@ =~= old(out)@ + str_flat(key@, value@));
    }
}

/// Emits one integer-valued line.
fn emit_int_field(out: &mut Vec<char>, key: &str, t: i64)
    ensures
        final (out)@ == old(out)@ + int_flat(key@, t as int),
{
    push_lit(out, key);
    push_i64(out, t);
    out.push('\n');
    proof {
        assert(out@ =~= old(out)@ + int_flat(key@, t as int));
    }
}

/// Emits one list-valued line.
fn emit_list_field(out: &mut Vec<char>, key: &str, items: &Vec<String>)
    ensures
        final (out)@ == old(out)@ + list_flat(key@, crate::text::str_views(items@)),
{
    push_lit(out, key);
    let item_lists = crate::text::to_char_lists(items);
    push_list(out, &item_lists);
    out.push('\n');
    proof {
        assert(out@ =~= old(out)@ + list_flat(key@, crate::text::str_views(items@)));
    }
}

/// Emits the type line.
fn emit_type_field(out: &mut Vec<char>, t: ProjectType)
    ensures
        final (out)@ == old(out)@ + type_flat(t),
{
    push_lit(out, "project_type = ");
    out.push('"');
    push_lit(out, t.as_str());
    out.push('"');
    out.push('\n');
    proof {
        assert(out@ =~= old(out)@ + type_flat(t));
    }
}

proof fn lemma_assoc8(
    f1: Seq<char>,
    f2: Seq<char>,
    f3: Seq<char>,
    f4: Seq<char>,
    f5: Seq<char>,
    f6: Seq<char>,
    f7: Seq<char>,
    f8: Seq<char>,
)
    ensures
        f1 + f2 + f3 + f4 + f5 + f6 + f7 + f8 == f1 + (f2 + (f3 + (f4 + (f5 + (f6 + (f7
            + f8)))))),
{
    assert(f1 + f2 + f3 + f4 + f5 + f6 + f7 + f8 =~= f1 + (f2 + (f3 + (f4 + (f5 + (f6 + (f7
        + f8)))))));
}

impl crate::project_info::ProjectInfo {
    /// The record's document form, ready to be persisted; `record_chars`
    /// states it exactly.
    #[verifier::rlimit(100)]
    pub fn to_toml_string(&self) -> (s: String)
        ensures
            s@ == record_chars(self@),
    {
        let ghost r = self@;
        let mut out: Vec<char> = Vec::new();
        emit_str_field(&mut out, "name = ", self.name.as_str());
        emit_str_field(&mut out, "alias = ", self.alias.as_str());
        emit_type_field(&mut out, self.project_type);
        emit_list_field(&mut out, "tags = ", &self.tags);
        emit_int_field(&mut out, "date_created = ", self.date_created);
        emit_int_field(&mut out, "date_modified = ", self.date_modified);
        emit_list_field(&mut out, "notes = ", &self.notes);
        match &self.git_url {
            Some(u) => {
                emit_str_field(&mut out, "git_url = ", u.as_str());
            },
            None => {},
        }
        proof {
            let f8 = git_tail(r.git_url);
            let f7 = list_flat("notes = "@, r.notes);
            let f6 = int_flat("date_modified = "@, r.date_modified);
            let f5 = int_flat("date_created = "@, r.date_created);
            let f4 = list_flat("tags = "@, r.tags);
            let f3 = type_flat(r.project_type);
            let f2 = str_flat("alias = "@, r.alias);
            let f1 = str_flat("name = "@, r.name);
            match r.git_url {
                Some(u) => {
                    lemma_str_field_flat("git_url = "@, u, Seq::empty());
                    assert(str_flat("git_url = "@, u) + Seq::<char>::empty() =~= str_flat(
                        "git_url = "@,
                        u,
                    ));
                    assert(f8 == str_flat("git_url = "@, u));
                },
                None => {},
            }
            lemma_list_field_flat("notes = "@, r.notes, f8);
            lemma_int_field_flat("date_modified = "@, r.date_modified, f7 + f8);
            lemma_int_field_flat("date_created = "@, r.date_created, f6 + (f7 + f8));
            lemma_list_field_flat("tags = "@, r.tags, f5 + (f6 + (f7 + f8)));
            lemma_type_field_flat(r.project_type, f4 + (f5 + (f6 + (f7 + f8))));
            lemma_str_field_flat("alias = "@, r.alias, f3 + (f4 + (f5 + (f6 + (f7 + f8)))));
            lemma_str_field_flat(
                "name = "@,
                r.name,
                f2 + (f3 + (f4 + (f5 + (f6 + (f7 + f8))))),
            );
            assert(record_chars(r) == f1 + (f2 + (f3 + (f4 + (f5 + (f6 + (f7 + f8)))))));
            if r.git_url is None {
                assert(f8 =~= Seq::<char>::empty());
                assert(f1 + f2 + f3 + f4 + f5 + f6 + f7 + f8 =~= f1 + f2 + f3 + f4 + f5 + f6
                    + f7);
            }
            assert(out@ == f1 + f2 + f3 + f4 + f5 + f6 + f7 + f8);
            lemma_assoc8(f1, f2, f3, f4, f5, f6, f7, f8);
        }
        crate::text::string_of_chars(&out)
    }
}

/// The digit a character stands for, `-1` if none; decides `digit_val`.
fn digit_of(c: char) -> (d: i32)
    ensures
        d == digit_val(c),
{
    if c == '0' {
        0
    } else if c == '1' {
        1
    } else if c == '2' {
        2
    } else if c == '3' {
        3
    } else if c == '4' {
        4
    } else if c == '5' {
        5
    } else if c == '6' {
        6
    } else if c == '7' {
        7
    } else if c == '8' {
        8
    } else if c == '9' {
        9
    } else {
        -1
    }
}

/// Consumes `lit` at position `i`, deciding `p_expect` on the remaining
/// input.
fn expect_lit(s: &Vec<char>, i: usize, lit: &Vec<char>) -> (r: Option<usize>)
    requires
        i <= s@.len(),
    ensures
        match r {
            Some(j) => i <= j <= s@.len() && p_expect(s@.skip(i as int), lit@) == Some(
                s@.skip(j as int),
            ) && j == i + lit@.len(),
            None => p_expect(s@.skip(i as int), lit@) is None,
        },
{
    if s.len() - i < lit.len() {
        return None;
    }
    let n = s.len();
    let mut k: usize = 0;
    while k < lit.len()
        invariant
            k <= lit.len(),
            i + lit.len() <= n,
            n == s@.len(),
            forall|m: int| 0 <= m < k ==> s@[i + m] == lit@[m],
        decreases lit.len() - k,
    {
        if s[i + k] != lit[k] {
            proof {
                assert(s@.skip(i as int).take(lit@.len() as int)[k as int] == s@[i + k]);
            }
            return None;
        }
        k += 1;
    }
    proof {
        assert(s@.skip(i as int).take(lit@.len() as int) =~= lit@);
        assert(s@.skip(i as int).skip(lit@.len() as int) =~= s@.skip(i + lit@.len()));
    }
    Some(i + lit.len())
}

/// Reads an escaped string body from position `i`, deciding `p_str_body` on
/// the remaining input.
fn parse_str_body_at(s: &Vec<char>, i: usize) -> (r: Option<(Vec<char>, usize)>)
    requires
        i <= s@.len(),
    ensures
        match r {
            Some((v, j)) => i < j <= s@.len() && p_str_body(s@.skip(i as int)) == Some(
                (v@, s@.skip(j as int)),
            ),
            None => p_str_body(s@.skip(i as int)) is None,
        },
    decreases s@.len() - i,
{
    if i >= s.len() {
        return None;
    }
    let c = s[i];
    proof {
        assert(s@.skip(i as int)[0] == c);
    }
    if c == '"' {
        proof {
            assert(s@.skip(i as int).skip(1) =~= s@.skip(i + 1));
        }
        let v: Vec<char> = Vec::new();
        return Some((v, i + 1));
    }
    if c == '\\' {
        if i + 1 >= s.len() {
            proof {
                assert(s@.skip(i as int).len() < 2);
            }
            return None;
        }
        let e = s[i + 1];
        proof {
            assert(s@.skip(i as int)[1] == e);
            assert(s@.skip(i as int).skip(2) =~= s@.skip(i + 2));
        }
        if e == '"' || e == '\\' {
            match parse_str_body_at(s, i + 2) {
                Some((t, j)) => {
                    let mut t = t;
                    let mut v: Vec<char> = Vec::new();
                    v.push(e);
                    let ghost tv = t@;
                    v.append(&mut t);
                    proof {
                        assert(v@ =~= seq![e] + tv);
                    }
                    return Some((v, j));
                },
                None => {
                    return None;
                },
            }
        } else {
            return None;
        }
    }
    match parse_str_body_at(s, i + 1) {
        Some((t, j)) => {
            let mut t = t;
            let mut v: Vec<char> = Vec::new();
            v.push(c);
            let ghost tv = t@;
            v.append(&mut t);
            proof {
                assert(s@.skip(i as int).skip(1) =~= s@.skip(i + 1));
                assert(v@ =~= seq![c] + tv);
            }
            Some((v, j))
        },
        None => {
            proof {
                assert(s@.skip(i as int).skip(1) =~= s@.skip(i + 1));
            }
            None
        },
    }
}

/// Reads a maximal digit run from position `i`.  The flag reports a value
/// too large for the machine word; the spec value is reported exactly
/// otherwise.
fn parse_uint_at(s: &Vec<char>, i: usize) -> (r: Option<(u64, bool, usize)>)
    requires
        i <= s@.len(),
    ensures
        match r {
            Some((v, big, j)) => {
                &&& i < j <= s@.len()
                &&& p_uint(s@.skip(i as int)) is Some
                &&& p_uint(s@.skip(i as int))->Some_0.1 == s@.skip(j as int)
                &&& (big ==> p_uint(s@.skip(i as int))->Some_0.0 > u64::MAX as int)
                &&& (!big ==> p_uint(s@.skip(i as int))->Some_0.0 == v as int)
            },
            None => p_uint(s@.skip(i as int)) is None,
        },
{
    if i >= s.len() {
        return None;
    }
    if digit_of(s[i]) < 0 {
        proof {
            assert(s@.skip(i as int)[0] == s@[i as int]);
        }
        return None;
    }
    proof {
        assert(s@.skip(i as int)[0] == s@[i as int]);
    }
    let mut val: u128 = 0;
    let mut big = false;
    let ghost mut g: int = 0int;
    let mut k: usize = i;
    let mut stop = false;
    while k < s.len() && !stop
        invariant
            i <= k <= s@.len(),
            i < s@.len(),
            is_digit(s@[i as int]),
            p_uint_acc(s@.skip(i as int), 0) == p_uint_acc(s@.skip(k as int), g),
            stop ==> i < k && k < s@.len() && !is_digit(s@[k as int]),
            !big ==> val <= u64::MAX as u128 && g == val as int,
            big ==> g > u64::MAX as int,
            g >= 0,
        decreases
                s@.len() - k + (if stop {
                    0int
                } else {
                    1int
                }),
    {
        let d = digit_of(s[k]);
        if d < 0 {
            stop = true;
        } else {
            proof {
                assert(s@.skip(k as int)[0] == s@[k as int]);
                assert(s@.skip(k as int).skip(1) =~= s@.skip(k + 1));
            }
            let du = d as u128;
            if !big {
                val = val * 10 + du;
                if val > u64::MAX as u128 {
                    big = true;
                }
            }
            proof {
                let d_int = digit_val(s@[k as int]);
                let g0 = g;
                g = g * 10 + d_int;
                if g0 > u64::MAX as int {
                    assert(g0 * 10 + d_int > u64::MAX as int) by (nonlinear_arith)
                        requires
                            g0 > u64::MAX as int,
                            d_int >= 0,
                    ;
                }
            }
            k += 1;
        }
    }
    proof {
        if k < s@.len() {
            assert(!is_digit(s@[k as int]));
            assert(s@.skip(k as int)[0] == s@[k as int]);
            assert(p_uint_acc(s@.skip(k as int), g) == (g, s@.skip(k as int)));
        } else {
            assert(s@.skip(k as int).len() == 0);
            assert(p_uint_acc(s@.skip(k as int), g) == (g, s@.skip(k as int)));
        }
    }
    let v64: u64 = if big {
        0
    } else {
        val as u64
    };
    Some((v64, big, k))
}

/// Reads a decimal integer from position `i`; fails when the text is no
/// integer or the value falls outside the machine range.
fn parse_i64_at(s: &Vec<char>, i: usize) -> (r: Option<(i64, usize)>)
    requires
        i <= s@.len(),
    ensures
        match r {
            Some((t, j)) => {
                &&& i < j <= s@.len()
                &&& p_int(s@.skip(i as int)) is Some
                &&& p_int(s@.skip(i as int))->Some_0.0 == t as int
                &&& p_int(s@.skip(i as int))->Some_0.1 == s@.skip(j as int)
            },
            None => p_int(s@.skip(i as int)) is None || !(i64::MIN <= p_int(
                s@.skip(i as int),
            )->Some_0.0 <= i64::MAX),
        },
{
    if i < s.len() && s[i] == '-' {
        proof {
            assert(s@.skip(i as int)[0] == '-');
            assert(s@.skip(i as int).skip(1) =~= s@.skip(i + 1));
        }
        match parse_uint_at(s, i + 1) {
            Some((v, big, j)) => {
                if big {
                    return None;
                }
                if v > 9223372036854775808u64 {
                    return None;
                }
                let t: i64 = if v == 9223372036854775808u64 {
                    i64::MIN
                } else {
                    -(v as i64)
                };
                Some((t, j))
            },
            None => None,
        }
    } else {
        proof {
            if s@.skip(i as int).len() > 0 {
                assert(s@.skip(i as int)[0] == s@[i as int]);
            }
        }
        match parse_uint_at(s, i) {
            Some((v, big, j)) => {
                if big {
                    return None;
                }
                if v > i64::MAX as u64 {
                    return None;
                }
                Some((v as i64, j))
            },
            None => None,
        }
    }
}

/// Reads the remainder of a list after one item, deciding `p_items_rest`.
fn parse_items_rest_at(s: &Vec<char>, i: usize) -> (r: Option<(Vec<Vec<char>>, usize)>)
    requires
        i <= s@.len(),
    ensures
        match r {
            Some((items, j)) => i < j <= s@.len() && p_items_rest(s@.skip(i as int)) == Some(
                (crate::text::char_views(items@), s@.skip(j as int)),
            ),
            None => p_items_rest(s@.skip(i as int)) is None,
        },
    decreases s@.len() - i,
{
    if i < s.len() && s[i] == ']' {
        proof {
            assert(s@.skip(i as int)[0] == ']');
            assert(s@.skip(i as int).skip(1) =~= s@.skip(i + 1));
            assert(crate::text::char_views(Seq::<Vec<char>>::empty()) =~= Seq::<Seq<
                char,
            >>::empty());
        }
        let items: Vec<Vec<char>> = Vec::new();
        proof {
            assert(crate::text::char_views(items@) =~= Seq::<Seq<char>>::empty());
        }
        return Some((items, i + 1));
    }
    if s.len() - i >= 3 && s[i] == ',' && s[i + 1] == ' ' && s[i + 2] == '"' {
        proof {
            assert(s@.skip(i as int).len() >= 3);
            assert(s@.skip(i as int)[0] == ',');
            assert(s@.skip(i as int)[1] == ' ');
            assert(s@.skip(i as int)[2] == '"');
            assert(s@.skip(i as int).skip(3) =~= s@.skip(i + 3));
        }
        match parse_str_body_at(s, i + 3) {
            Some((t, j)) => {
                match parse_items_rest_at(s, j) {
                    Some((ts, j2)) => {
                        let mut ts = ts;
                        let ghost tsv = ts@;
                        let mut items: Vec<Vec<char>> = Vec::new();
                        items.push(t);
                        items.append(&mut ts);
                        proof {
                            assert(items@ =~= seq![items@[0]] + tsv);
                            assert(crate::text::char_views(items@) =~= seq![items@[0]@]
                                + crate::text::char_views(tsv));
                        }
                        Some((items, j2))
                    },
                    None => None,
                }
            },
            None => None,
        }
    } else {
        proof {
            let t = s@.skip(i as int);
            if t.len() > 0 {
                assert(t[0] == s@[i as int]);
            }
            if t.len() >= 3 {
                assert(t[0] == s@[i as int] && t[1] == s@[i + 1] && t[2] == s@[i + 2]);
                assert(i + 2 < s@.len());
            }
        }
        None
    }
}

/// Reads a list interior from position `i`, deciding `p_list`.
fn parse_list_at(s: &Vec<char>, i: usize) -> (r: Option<(Vec<Vec<char>>, usize)>)
    requires
        i <= s@.len(),
    ensures
        match r {
            Some((items, j)) => i < j <= s@.len() && p_list(s@.skip(i as int)) == Some(
                (crate::text::char_views(items@), s@.skip(j as int)),
            ),
            None => p_list(s@.skip(i as int)) is None,
        },
{
    if i < s.len() && s[i] == ']' {
        proof {
            assert(s@.skip(i as int)[0] == ']');
            assert(s@.skip(i as int).skip(1) =~= s@.skip(i + 1));
        }
        let items: Vec<Vec<char>> = Vec::new();
        proof {
            assert(crate::text::char_views(items@) =~= Seq::<Seq<char>>::empty());
        }
        return Some((items, i + 1));
    }
    if i < s.len() && s[i] == '"' {
        proof {
            assert(s@.skip(i as int)[0] == '"');
            assert(s@.skip(i as int).skip(1) =~= s@.skip(i + 1));
        }
        match parse_str_body_at(s, i + 1) {
            Some((t, j)) => {
                match parse_items_rest_at(s, j) {
                    Some((ts, j2)) => {
                        let mut ts = ts;
                        let ghost tsv = ts@;
                        let mut items: Vec<Vec<char>> = Vec::new();
                        items.push(t);
                        items.append(&mut ts);
                        proof {
                            assert(items@ =~= seq![items@[0]] + tsv);
                            assert(crate::text::char_views(items@) =~= seq![items@[0]@]
                                + crate::text::char_views(tsv));
                        }
                        Some((items, j2))
                    },
                    None => None,
                }
            },
            None => None,
        }
    } else {
        proof {
            let t = s@.skip(i as int);
            if t.len() > 0 {
                assert(t[0] == s@[i as int]);
            }
        }
        None
    }
}

/// A one-character vector holding the quote mark.
fn quote_vec() -> (v: Vec<char>)
    ensures
        v@ == quote_mark(),
{
    let mut v: Vec<char> = Vec::new();
    v.push('"');
    proof {
        assert(v@ =~= quote_mark());
    }
    v
}

/// A one-character vector holding the line break.
fn newline_vec() -> (v: Vec<char>)
    ensures
        v@ == newline(),
{
    let mut v: Vec<char> = Vec::new();
    v.push('\n');
    proof {
        assert(v@ =~= newline());
    }
    v
}

/// Reads one string-valued line, deciding `p_str_field`.
fn parse_str_field_at(s: &Vec<char>, i: usize, key: &str) -> (r: Option<(Vec<char>, usize)>)
    requires
        i <= s@.len(),
    ensures
        match r {
            Some((v, j)) => i <= j <= s@.len() && p_str_field(s@.skip(i as int), key@) == Some(
                (v@, s@.skip(j as int)),
            ),
            None => p_str_field(s@.skip(i as int), key@) is None,
        },
{
    let key_chars = crate::text::chars_of_str(key);
    let j1 = match expect_lit(s, i, &key_chars) {
        Some(j) => j,
        None => {
            return None;
        },
    };
    let qv = quote_vec();
    let j2 = match expect_lit(s, j1, &qv) {
        Some(j) => j,
        None => {
            return None;
        },
    };
    let (v, j3) = match parse_str_body_at(s, j2) {
        Some(x) => x,
        None => {
            return None;
        },
    };
    let nv = newline_vec();
    let j4 = match expect_lit(s, j3, &nv) {
        Some(j) => j,
        None => {
            return None;
        },
    };
    Some((v, j4))
}

/// Reads one integer-valued line, deciding `p_int_field` up to the machine
/// range.
fn parse_int_field_at(s: &Vec<char>, i: usize, key: &str) -> (r: Option<(i64, usize)>)
    requires
        i <= s@.len(),
    ensures
        match r {
            Some((t, j)) => {
                &&& i <= j <= s@.len()
                &&& p_int_field(s@.skip(i as int), key@) is Some
                &&& p_int_field(s@.skip(i as int), key@)->Some_0.0 == t as int
                &&& p_int_field(s@.skip(i as int), key@)->Some_0.1 == s@.skip(j as int)
            },
            None => p_int_field(s@.skip(i as int), key@) is None || !(i64::MIN <= p_int_field(
                s@.skip(i as int),
                key@,
            )->Some_0.0 <= i64::MAX),
        },
{
    let key_chars = crate::text::chars_of_str(key);
    let j1 = match expect_lit(s, i, &key_chars) {
        Some(j) => j,
        None => {
            return None;
        },
    };
    let (t, j2) = match parse_i64_at(s, j1) {
        Some(x) => x,
        None => {
            return None;
        },
    };
    let nv = newline_vec();
    let j3 = match expect_lit(s, j2, &nv) {
        Some(j) => j,
        None => {
            return None;
        },
    };
    Some((t, j3))
}

/// Reads one list-valued line, deciding `p_list_field`.
fn parse_list_field_at(s: &Vec<char>, i: usize, key: &str) -> (r: Option<(Vec<String>, usize)>)
    requires
        i <= s@.len(),
    ensures
        match r {
            Some((items, j)) => i <= j <= s@.len() && p_list_field(s@.skip(i as int), key@)
                == Some((crate::text::str_views(items@), s@.skip(j as int))),
            None => p_list_field(s@.skip(i as int), key@) is None,
        },
{
    let key_chars = crate::text::chars_of_str(key);
    let j1 = match expect_lit(s, i, &key_chars) {
        Some(j) => j,
        None => {
            return None;
        },
    };
    let mut bv: Vec<char> = Vec::new();
    bv.push('[');
    proof {
        assert(bv@ =~= open_bracket());
    }
    let j2 = match expect_lit(s, j1, &bv) {
        Some(j) => j,
        None => {
            return None;
        },
    };
    let (items, j3) = match parse_list_at(s, j2) {
        Some(x) => x,
        None => {
            return None;
        },
    };
    let nv = newline_vec();
    let j4 = match expect_lit(s, j3, &nv) {
        Some(j) => j,
        None => {
            return None;
        },
    };
    let out = crate::text::to_strings(&items);
    Some((out, j4))
}

/// Reads the type line, deciding `p_type_field`.
fn parse_type_field_at(s: &Vec<char>, i: usize) -> (r: Option<(ProjectType, usize)>)
    requires
        i <= s@.len(),
    ensures
        match r {
            Some((t, j)) => i <= j <= s@.len() && p_type_field(s@.skip(i as int)) == Some(
                (t, s@.skip(j as int)),
            ),
            None => p_type_field(s@.skip(i as int)) is None,
        },
{
    let key_chars = crate::text::chars_of_str("project_type = ");
    let j1 = match expect_lit(s, i, &key_chars) {
        Some(j) => j,
        None => {
            return None;
        },
    };
    let qv = quote_vec();
    let j2 = match expect_lit(s, j1, &qv) {
        Some(j) => j,
        None => {
            return None;
        },
    };
    let word_prog = crate::text::chars_of_str("programming");
    let word_music = crate::text::chars_of_str("music");
    let word_unknown = crate::text::chars_of_str("unknown");
    let (t, j3) = match expect_lit(s, j2, &word_prog) {
        Some(j) => (ProjectType::Programming, j),
        None => match expect_lit(s, j2, &word_music) {
            Some(j) => (ProjectType::Music, j),
            None => match expect_lit(s, j2, &word_unknown) {
                Some(j) => (ProjectType::Unknown, j),
                None => {
                    return None;
                },
            },
        },
    };
    let j4 = match expect_lit(s, j3, &qv) {
        Some(j) => j,
        None => {
            return None;
        },
    };
    let nv = newline_vec();
    let j5 = match expect_lit(s, j4, &nv) {
        Some(j) => j,
        None => {
            return None;
        },
    };
    Some((t, j5))
}

impl crate::project_info::ProjectInfo {
    /// Reads a record back from its document form; `parse_record` states the
    /// result exactly.  Returns `None` for any text the emitter cannot have
    /// produced.
    #[verifier::rlimit(100)]
    pub fn from_toml_str(doc: &str) -> (r: Option<crate::project_info::ProjectInfo>)
        ensures
            match r {
                Some(info) => parse_record(doc@) == Some(info@),
                None => parse_record(doc@) is None,
            },
    {
        let cs = crate::text::chars_of_str(doc);
        proof {
            assert(cs@.skip(0) =~= doc@);
        }
        let (name, i1) = match parse_str_field_at(&cs, 0, "name = ") {
            Some(x) => x,
            None => {
                return None;
            },
        };
        let (alias, i2) = match parse_str_field_at(&cs, i1, "alias = ") {
            Some(x) => x,
            None => {
                return None;
            },
        };
        let (pt, i3) = match parse_type_field_at(&cs, i2) {
            Some(x) => x,
            None => {
                return None;
            },
        };
        let (tags, i4) = match parse_list_field_at(&cs, i3, "tags = ") {
            Some(x) => x,
            None => {
                return None;
            },
        };
        let (dc, i5) = match parse_int_field_at(&cs, i4, "date_created = ") {
            Some(x) => x,
            None => {
                return None;
            },
        };
        let (dm, i6) = match parse_int_field_at(&cs, i5, "date_modified = ") {
            Some(x) => x,
            None => {
                return None;
            },
        };
        let (notes, i7) = match parse_list_field_at(&cs, i6, "notes = ") {
            Some(x) => x,
            None => {
                return None;
            },
        };
        let git_url: Option<String>;
        if i7 == cs.len() {
            proof {
                assert(cs@.skip(i7 as int).len() == 0);
            }
            git_url = None;
        } else {
            proof {
                assert(cs@.skip(i7 as int).len() > 0);
            }
            let (u, i8) = match parse_str_field_at(&cs, i7, "git_url = ") {
                Some(x) => x,
                None => {
                    return None;
                },
            };
            if i8 != cs.len() {
                proof {
                    assert(cs@.skip(i8 as int).len() > 0);
                }
                return None;
            }
            proof {
                assert(cs@.skip(i8 as int).len() == 0);
            }
            git_url = Some(crate::text::string_of_chars(&u));
        }
        let info = crate::project_info::ProjectInfo {
            name: crate::text::string_of_chars(&name),
            alias: crate::text::string_of_chars(&alias),
            project_type: pt,
            tags,
            date_created: dc,
            date_modified: dm,
            notes,
            git_url,
        };
        Some(info)
    }
}

/// The round trip: a record written as its document and parsed back is
/// returned unchanged, for every record whose timestamps fit the machine
/// range (the emitted form itself never loses them).
pub proof fn lemma_record_round_trip(r: RecordView)
    requires
        i64::MIN <= r.date_created <= i64::MAX,
        i64::MIN <= r.date_modified <= i64::MAX,
    ensures
        parse_record(record_chars(r)) == Some(r),
{
    let s7 = git_tail(r.git_url);
    let s6 = list_field("notes = "@, r.notes, s7);
    let s5 = int_field("date_modified = "@, r.date_modified, s6);
    let s4 = int_field("date_created = "@, r.date_created, s5);
    let s3 = list_field("tags = "@, r.tags, s4);
    let s2 = type_field(r.project_type, s3);
    let s1 = str_field("alias = "@, r.alias, s2);
    let s0 = str_field("name = "@, r.name, s1);
    lemma_p_str_field("name = "@, r.name, s1);
    lemma_p_str_field("alias = "@, r.alias, s2);
    lemma_p_type_field(r.project_type, s3);
    lemma_p_list_field("tags = "@, r.tags, s4);
    lemma_p_int_field("date_created = "@, r.date_created, s5);
    lemma_p_int_field("date_modified = "@, r.date_modified, s6);
    lemma_p_list_field("notes = "@, r.notes, s7);
    match r.git_url {
        Some(u) => {
            assert(s7 == str_field("git_url = "@, u, Seq::empty()));
            assert(s7.len() > 0);
            lemma_p_str_field("git_url = "@, u, Seq::empty());
        },
        None => {
            assert(s7.len() == 0);
        },
    }
}

} // verus!
