use vstd::prelude::*;

use crate::records::{Customer, InventoryItem};

verus! {

// ---------------------------------------------------------------------------
// Characters and digits
// ---------------------------------------------------------------------------

/// The character for a single decimal digit value.
pub open spec fn spec_digit(d: nat) -> char {
    ((d + 48) as u8) as char
}

/// The character for a single hexadecimal digit value (lower case).
pub open spec fn spec_hex_digit(v: nat) -> char {
    if v < 10 {
        spec_digit(v)
    } else {
        ((v - 10 + 97) as u8) as char
    }
}

pub open spec fn spec_is_digit(c: char) -> bool {
    '0' <= c && c <= '9'
}

pub open spec fn spec_digit_val(c: char) -> nat {
    (c as u32 - 48) as nat
}

/// The value of a hexadecimal digit, or 16 when the character is none.
pub open spec fn spec_hex_val(c: char) -> nat {
    if '0' <= c && c <= '9' {
        (c as u32 - 48) as nat
    } else if 'a' <= c && c <= 'f' {
        (c as u32 - 87) as nat
    } else if 'A' <= c && c <= 'F' {
        (c as u32 - 55) as nat
    } else {
        16
    }
}

/// The decimal rendering of a natural number, most significant digit
/// first, with no sign, no leading zero, and `0` rendered as "0".
pub open spec fn spec_decimal(n: nat) -> Seq<char>
    decreases n,
{
    if n < 10 {
        seq![spec_digit(n)]
    } else {
        spec_decimal(n / 10).push(spec_digit(n % 10))
    }
}

// ---------------------------------------------------------------------------
// JSON string escaping
// ---------------------------------------------------------------------------

/// How one character appears inside a JSON string literal: quotes and
/// backslashes get a two-character escape, control characters a
/// `\u00XX` escape, and everything else stands as itself.
pub open spec fn spec_escape_char(c: char) -> Seq<char> {
    if c == '"' {
        seq!['\\', '"']
    } else if c == '\\' {
        seq!['\\', '\\']
    } else if (c as u32) < 0x20 {
        seq!['\\', 'u', '0', '0', spec_hex_digit(((c as u32) / 16) as nat), spec_hex_digit(
            ((c as u32) % 16) as nat,
        )]
    } else {
        seq![c]
    }
}

/// The body of a JSON string literal for the given text.
pub open spec fn spec_escape(s: Seq<char>) -> Seq<char>
    decreases s.len(),
{
    if s.len() == 0 {
        Seq::empty()
    } else {
        spec_escape_char(s[0]) + spec_escape(s.drop_first())
    }
}

/// A complete JSON string literal: quote, escaped body, quote.
pub open spec fn spec_quote(s: Seq<char>) -> Seq<char> {
    seq!['"'] + spec_escape(s) + seq!['"']
}

pub open spec fn spec_name_key() -> Seq<char> {
    seq!['n', 'a', 'm', 'e']
}

pub open spec fn spec_quantity_key() -> Seq<char> {
    seq!['q', 'u', 'a', 'n', 't', 'i', 't', 'y']
}

pub open spec fn spec_email_key() -> Seq<char> {
    seq!['e', 'm', 'a', 'i', 'l']
}

/// The JSON wire form of an inventory record:
/// `{"name":<string>,"quantity":<number>}`.
pub open spec fn spec_encode_item(name: Seq<char>, quantity: u32) -> Seq<char> {
    seq!['{'] + spec_quote(spec_name_key()) + seq![':'] + spec_quote(name) + seq![','] + spec_quote(
        spec_quantity_key(),
    ) + seq![':'] + spec_decimal(quantity as nat) + seq!['}']
}

/// The JSON wire form of a customer record:
/// `{"name":<string>,"email":<string>}`.
pub open spec fn spec_encode_customer(name: Seq<char>, email: Seq<char>) -> Seq<char> {
    seq!['{'] + spec_quote(spec_name_key()) + seq![':'] + spec_quote(name) + seq![','] + spec_quote(
        spec_email_key(),
    ) + seq![':'] + spec_quote(email) + seq!['}']
}

// ---------------------------------------------------------------------------
// Executable encoding
// ---------------------------------------------------------------------------

/// Relies on String::push: appends the given character to the string.
#[verifier::external_body]
fn push_char(s: &mut String, c: char)
    ensures
        final(s)@ == old(s)@.push(c),
{
    s.push(c)
}

/// Turns a character sequence into a `String` with the same view.
pub(crate) fn string_of_chars(v: &Vec<char>) -> (r: String)
    ensures
        r@ == v@,
{
    let mut r = String::new();
    let mut i: usize = 0;
    while i < v.len()
        invariant
            i <= v.len(),
            r@ == v@.subrange(0, i as int),
        decreases v.len() - i,
    {
        push_char(&mut r, v[i]);
        i = i + 1;
        proof {
            assert(v@.subrange(0, i as int) =~= v@.subrange(0, i - 1).push(v@[i - 1]));
        }
    }
    proof {
        assert(v@.subrange(0, v@.len() as int) =~= v@);
    }
    r
}

fn digit_char(d: u8) -> (c: char)
    requires
        d < 10,
    ensures
        c == spec_digit(d as nat),
{
    (d + 48) as char
}

fn hex_digit_char(v: u8) -> (c: char)
    requires
        v < 16,
    ensures
        c == spec_hex_digit(v as nat),
{
    if v < 10 {
        (v + 48) as char
    } else {
        (v - 10 + 97) as char
    }
}

/// Appends the decimal rendering of `n`.
pub(crate) fn push_decimal(n: u64, out: &mut Vec<char>)
    ensures
        final(out)@ == old(out)@ + spec_decimal(n as nat),
    decreases n,
{
    if n >= 10 {
        push_decimal(n / 10, out);
    }
    out.push(digit_char((n % 10) as u8));
    proof {
        assert(out@ =~= old(out)@ + spec_decimal(n as nat));
    }
}

/// Appends the escaped form of one character.
fn push_escaped(c: char, out: &mut Vec<char>)
    ensures
        final(out)@ == old(out)@ + spec_escape_char(c),
{
    if c == '"' {
        out.push('\\');
        out.push('"');
    } else if c == '\\' {
        out.push('\\');
        out.push('\\');
    } else if (c as u32) < 0x20 {
        let v = c as u32;
        out.push('\\');
        out.push('u');
        out.push('0');
        out.push('0');
        out.push(hex_digit_char((v / 16) as u8));
        out.push(hex_digit_char((v % 16) as u8));
    } else {
        out.push(c);
    }
    proof {
        assert(out@ =~= old(out)@ + spec_escape_char(c));
    }
}

proof fn lemma_escape_snoc(s: Seq<char>, c: char)
    ensures
        spec_escape(s.push(c)) == spec_escape(s) + spec_escape_char(c),
    decreases s.len(),
{
    if s.len() == 0 {
        assert(s.push(c)[0] == c);
        assert(s.push(c).drop_first() =~= Seq::<char>::empty());
        assert(spec_escape(s.push(c)) == spec_escape_char(c) + spec_escape(
            Seq::<char>::empty(),
        ));
        assert(spec_escape(s.push(c)) =~= spec_escape(s) + spec_escape_char(c));
    } else {
        let t = s.push(c);
        assert(t.len() > 0);
        assert(t[0] == s[0]);
        assert(t.drop_first() =~= s.drop_first().push(c));
        lemma_escape_snoc(s.drop_first(), c);
        assert(spec_escape(t) == spec_escape_char(s[0]) + (spec_escape(s.drop_first())
            + spec_escape_char(c)));
        assert(spec_escape(s) == spec_escape_char(s[0]) + spec_escape(s.drop_first()));
        assert(spec_escape(t) =~= spec_escape(s) + spec_escape_char(c));
    }
}

/// Appends a complete JSON string literal for `s`.
fn push_quoted(s: &str, out: &mut Vec<char>)
    ensures
        final(out)@ == old(out)@ + spec_quote(s@),
{
    out.push('"');
    let n = s.unicode_len();
    let mut i: usize = 0;
    while i < n
        invariant
            n == s@.len(),
            i <= n,
            out@ == old(out)@ + seq!['"'] + spec_escape(s@.subrange(0, i as int)),
        decreases n - i,
    {
        let c = s.get_char(i);
        push_escaped(c, out);
        i = i + 1;
        proof {
            assert(s@.subrange(0, i as int) =~= s@.subrange(0, i - 1).push(s@[i - 1]));
            lemma_escape_snoc(s@.subrange(0, i - 1), s@[i - 1]);
        }
    }
    out.push('"');
    proof {
        assert(s@.subrange(0, s@.len() as int) =~= s@);
        assert(out@ =~= old(out)@ + spec_quote(s@));
    }
}

// ---------------------------------------------------------------------------
// Parsing: the grammar of an inventory payload
//
// A payload is accepted exactly when it is a JSON object holding the
// members `name` (a string) and `quantity` (an unsigned integer that
// fits in 32 bits), once each, in either order, with arbitrary JSON
// whitespace between tokens and nothing after the closing brace.
// String literals take the escapes \" \\ \/ \b \f \n \r \t and
// \u00XX; escapes for code points above U+00FF are not part of the
// wire format, such characters stand as themselves.
// ---------------------------------------------------------------------------

pub open spec fn spec_is_ws(c: char) -> bool {
    c == ' ' || c == '\t' || c == '\n' || c == '\r'
}

/// The first index at or after `i` holding no whitespace.
pub open spec fn spec_skip_ws(s: Seq<char>, i: int) -> int
    decreases s.len() - i,
{
    if i < 0 || i >= s.len() {
        i
    } else if spec_is_ws(s[i]) {
        spec_skip_ws(s, i + 1)
    } else {
        i
    }
}

/// The character denoted by a single-letter escape, if the letter is one.
pub open spec fn spec_simple_unescape(e: char) -> Option<char> {
    if e == '"' {
        Some('"')
    } else if e == '\\' {
        Some('\\')
    } else if e == '/' {
        Some('/')
    } else if e == 'b' {
        Some('\u{8}')
    } else if e == 'f' {
        Some('\u{c}')
    } else if e == 'n' {
        Some('\n')
    } else if e == 'r' {
        Some('\r')
    } else if e == 't' {
        Some('\t')
    } else {
        None
    }
}

/// Parses the body of a string literal from `i` up to and past the
/// closing quote, yielding the unescaped text and the index after it.
pub open spec fn spec_parse_string_body(s: Seq<char>, i: int) -> Option<(Seq<char>, int)>
    decreases s.len() - i,
{
    if i < 0 || i >= s.len() {
        None
    } else if s[i] == '"' {
        Some((Seq::empty(), i + 1))
    } else if s[i] == '\\' {
        if i + 1 >= s.len() {
            None
        } else if s[i + 1] == 'u' {
            if i + 6 <= s.len() && s[i + 2] == '0' && s[i + 3] == '0' && spec_hex_val(s[i + 4])
                < 16 && spec_hex_val(s[i + 5]) < 16 {
                let c = ((spec_hex_val(s[i + 4]) * 16 + spec_hex_val(s[i + 5])) as u8) as char;
                match spec_parse_string_body(s, i + 6) {
                    Some(p) => Some((seq![c] + p.0, p.1)),
                    None => None,
                }
            } else {
                None
            }
        } else {
            match spec_simple_unescape(s[i + 1]) {
                Some(c) => match spec_parse_string_body(s, i + 2) {
                    Some(p) => Some((seq![c] + p.0, p.1)),
                    None => None,
                },
                None => None,
            }
        }
    } else if (s[i] as u32) < 0x20 {
        None
    } else {
        match spec_parse_string_body(s, i + 1) {
            Some(p) => Some((seq![s[i]] + p.0, p.1)),
            None => None,
        }
    }
}

/// Parses a complete string literal starting at `i`.
pub open spec fn spec_parse_string(s: Seq<char>, i: int) -> Option<(Seq<char>, int)> {
    if 0 <= i && i < s.len() && s[i] == '"' {
        spec_parse_string_body(s, i + 1)
    } else {
        None
    }
}

/// The first index at or after `i` holding no decimal digit.
pub open spec fn spec_digit_run_end(s: Seq<char>, i: int) -> int
    decreases s.len() - i,
{
    if i < 0 || i >= s.len() {
        i
    } else if spec_is_digit(s[i]) {
        spec_digit_run_end(s, i + 1)
    } else {
        i
    }
}

/// The value of the digits of `s` in `[i, j)`, read in base ten.
pub open spec fn spec_digits_val(s: Seq<char>, i: int, j: int) -> nat
    decreases j - i,
{
    if j <= i {
        0
    } else {
        spec_digits_val(s, i, j - 1) * 10 + spec_digit_val(s[j - 1])
    }
}

/// Parses an unsigned decimal number starting at `i`: a nonempty digit
/// run with no leading zero, whose value fits in 32 bits.
pub open spec fn spec_parse_number(s: Seq<char>, i: int) -> Option<(u32, int)> {
    let j = spec_digit_run_end(s, i);
    if j == i {
        None
    } else if s[i] == '0' && j > i + 1 {
        None
    } else if spec_digits_val(s, i, j) > u32::MAX {
        None
    } else {
        Some((spec_digits_val(s, i, j) as u32, j))
    }
}

/// One parsed object member: a name string or a quantity number.
pub enum MemberV {
    NameField(Seq<char>),
    QuantityField(u32),
}

/// Parses one member, `"name": <string>` or `"quantity": <number>`.
pub open spec fn spec_parse_member(s: Seq<char>, i: int) -> Option<(MemberV, int)> {
    match spec_parse_string(s, i) {
        None => None,
        Some((key, j)) => {
            let j1 = spec_skip_ws(s, j);
            if !(0 <= j1 && j1 < s.len() && s[j1] == ':') {
                None
            } else {
                let j2 = spec_skip_ws(s, j1 + 1);
                if key == spec_name_key() {
                    match spec_parse_string(s, j2) {
                        Some((v, k)) => Some((MemberV::NameField(v), k)),
                        None => None,
                    }
                } else if key == spec_quantity_key() {
                    match spec_parse_number(s, j2) {
                        Some((v, k)) => Some((MemberV::QuantityField(v), k)),
                        None => None,
                    }
                } else {
                    None
                }
            }
        },
    }
}

/// Parses a whole inventory payload: `None` exactly on the texts that
/// are not valid JSON for an inventory record in the wire format.
pub open spec fn spec_parse_item(s: Seq<char>) -> Option<(Seq<char>, u32)> {
    let i0 = spec_skip_ws(s, 0);
    if !(i0 < s.len() && s[i0] == '{') {
        None
    } else {
        let i1 = spec_skip_ws(s, i0 + 1);
        match spec_parse_member(s, i1) {
            None => None,
            Some((m1, j0)) => {
                let j1 = spec_skip_ws(s, j0);
                if !(j1 < s.len() && s[j1] == ',') {
                    None
                } else {
                    let j2 = spec_skip_ws(s, j1 + 1);
                    match spec_parse_member(s, j2) {
                        None => None,
                        Some((m2, k0)) => {
                            let k1 = spec_skip_ws(s, k0);
                            if !(k1 < s.len() && s[k1] == '}') {
                                None
                            } else if spec_skip_ws(s, k1 + 1) != s.len() {
                                None
                            } else {
                                match (m1, m2) {
                                    (MemberV::NameField(nm), MemberV::QuantityField(q)) => Some(
                                        (nm, q),
                                    ),
                                    (MemberV::QuantityField(q), MemberV::NameField(nm)) => Some(
                                        (nm, q),
                                    ),
                                    _ => None,
                                }
                            }
                        },
                    }
                }
            },
        }
    }
}

/// Serializes an inventory record to its JSON wire form.
pub fn encode_inventory_item(item: &InventoryItem) -> (r: String)
    ensures
        r@ == spec_encode_item(item.name@, item.quantity),
{
    let mut out: Vec<char> = Vec::new();
    out.push('{');
    push_quoted("name", &mut out);
    out.push(':');
    push_quoted(item.name.as_str(), &mut out);
    out.push(',');
    push_quoted("quantity", &mut out);
    out.push(':');
    push_decimal(item.quantity as u64, &mut out);
    out.push('}');
    proof {
        reveal_strlit("name");
        reveal_strlit("quantity");
        assert("name"@ =~= spec_name_key());
        assert("quantity"@ =~= spec_quantity_key());
        assert(out@ =~= spec_encode_item(item.name@, item.quantity));
    }
    string_of_chars(&out)
}

/// Serializes a customer record to its JSON wire form.
pub fn encode_customer(customer: &Customer) -> (r: String)
    ensures
        r@ == spec_encode_customer(customer.name@, customer.email@),
{
    let mut out: Vec<char> = Vec::new();
    out.push('{');
    push_quoted("name", &mut out);
    out.push(':');
    push_quoted(customer.name.as_str(), &mut out);
    out.push(',');
    push_quoted("email", &mut out);
    out.push(':');
    push_quoted(customer.email.as_str(), &mut out);
    out.push('}');
    proof {
        reveal_strlit("name");
        reveal_strlit("email");
        assert("name"@ =~= spec_name_key());
        assert("email"@ =~= spec_email_key());
        assert(out@ =~= spec_encode_customer(customer.name@, customer.email@));
    }
    string_of_chars(&out)
}

// ---------------------------------------------------------------------------
// Executable parsing
// ---------------------------------------------------------------------------

fn is_ws_char(c: char) -> (r: bool)
    ensures
        r == spec_is_ws(c),
{
    c == ' ' || c == '\t' || c == '\n' || c == '\r'
}

fn skip_ws_at(s: &str, i: usize) -> (j: usize)
    requires
        i <= s@.len(),
    ensures
        j as int == spec_skip_ws(s@, i as int),
        i <= j <= s@.len(),
    decreases s@.len() - i,
{
    let n = s.unicode_len();
    if i < n {
        let c = s.get_char(i);
        if is_ws_char(c) {
            return skip_ws_at(s, i + 1);
        }
    }
    i
}

fn hex_val_char(c: char) -> (v: u8)
    ensures
        v as nat == spec_hex_val(c),
{
    let u = c as u32;
    if 48 <= u && u <= 57 {
        (u - 48) as u8
    } else if 97 <= u && u <= 102 {
        (u - 87) as u8
    } else if 65 <= u && u <= 70 {
        (u - 55) as u8
    } else {
        16
    }
}

fn simple_unescape(e: char) -> (r: Option<char>)
    ensures
        r == spec_simple_unescape(e),
{
    if e == '"' {
        Some('"')
    } else if e == '\\' {
        Some('\\')
    } else if e == '/' {
        Some('/')
    } else if e == 'b' {
        Some('\u{8}')
    } else if e == 'f' {
        Some('\u{c}')
    } else if e == 'n' {
        Some('\n')
    } else if e == 'r' {
        Some('\r')
    } else if e == 't' {
        Some('\t')
    } else {
        None
    }
}

fn parse_string_body_at(s: &str, i: usize, out: &mut Vec<char>) -> (r: Option<usize>)
    requires
        i <= s@.len(),
    ensures
        match spec_parse_string_body(s@, i as int) {
            Some(p) => r matches Some(j) && j as int == p.1 && final(out)@ == old(out)@ + p.0 && i
                < j <= s@.len(),
            None => r is None,
        },
    decreases s@.len() - i,
{
    let n = s.unicode_len();
    if i >= n {
        return None;
    }
    let c = s.get_char(i);
    if c == '"' {
        proof {
            assert(out@ + Seq::<char>::empty() =~= out@);
        }
        Some(i + 1)
    } else if c == '\\' {
        if i + 1 >= n {
            return None;
        }
        let e = s.get_char(i + 1);
        if e == 'u' {
            if n - i >= 6 {
                let h2 = s.get_char(i + 2);
                let h3 = s.get_char(i + 3);
                let h4 = hex_val_char(s.get_char(i + 4));
                let h5 = hex_val_char(s.get_char(i + 5));
                if h2 == '0' && h3 == '0' && h4 < 16 && h5 < 16 {
                    let u = (h4 * 16 + h5) as char;
                    out.push(u);
                    let rec = parse_string_body_at(s, i + 6, out);
                    match rec {
                        Some(j) => {
                            proof {
                                let p = spec_parse_string_body(s@, (i + 6) as int)->Some_0;
                                assert((old(out)@ + seq![u]) + p.0 =~= old(out)@ + (seq![u]
                                    + p.0));
                            }
                            Some(j)
                        },
                        None => None,
                    }
                } else {
                    None
                }
            } else {
                None
            }
        } else {
            match simple_unescape(e) {
                Some(u) => {
                    out.push(u);
                    let rec = parse_string_body_at(s, i + 2, out);
                    match rec {
                        Some(j) => {
                            proof {
                                let p = spec_parse_string_body(s@, (i + 2) as int)->Some_0;
                                assert((old(out)@ + seq![u]) + p.0 =~= old(out)@ + (seq![u]
                                    + p.0));
                            }
                            Some(j)
                        },
                        None => None,
                    }
                },
                None => None,
            }
        }
    } else if (c as u32) < 0x20 {
        None
    } else {
        out.push(c);
        let rec = parse_string_body_at(s, i + 1, out);
        match rec {
            Some(j) => {
                proof {
                    let p = spec_parse_string_body(s@, (i + 1) as int)->Some_0;
                    assert((old(out)@ + seq![c]) + p.0 =~= old(out)@ + (seq![c] + p.0));
                }
                Some(j)
            },
            None => None,
        }
    }
}

fn parse_string_at(s: &str, i: usize, out: &mut Vec<char>) -> (r: Option<usize>)
    requires
        i <= s@.len(),
    ensures
        match spec_parse_string(s@, i as int) {
            Some(p) => r matches Some(j) && j as int == p.1 && final(out)@ == old(out)@ + p.0 && i
                < j <= s@.len(),
            None => r is None,
        },
{
    let n = s.unicode_len();
    if i < n && s.get_char(i) == '"' {
        parse_string_body_at(s, i + 1, out)
    } else {
        None
    }
}

pub open spec fn pow10(k: nat) -> nat
    decreases k,
{
    if k == 0 {
        1
    } else {
        10 * pow10((k - 1) as nat)
    }
}

proof fn lemma_pow10_vals()
    ensures
        pow10(9) == 1000000000,
        pow10(10) == 10000000000,
{
    reveal_with_fuel(pow10, 11);
}

/// Every character of a digit run is a digit.
proof fn lemma_run_digits(s: Seq<char>, i: int, k: int)
    requires
        0 <= i <= k < spec_digit_run_end(s, i),
    ensures
        spec_is_digit(s[k]),
    decreases k - i,
{
    if k > i {
        lemma_run_digits(s, i + 1, k);
    }
}

/// Appending digits never lowers the value.
proof fn lemma_digits_val_mono(s: Seq<char>, i: int, j1: int, j2: int)
    requires
        i <= j1 <= j2,
    ensures
        spec_digits_val(s, i, j1) <= spec_digits_val(s, i, j2),
    decreases j2 - j1,
{
    if j2 > j1 {
        lemma_digits_val_mono(s, i, j1, j2 - 1);
    }
}

/// A run whose first digit is nonzero has at least its positional value.
proof fn lemma_digits_val_lower(s: Seq<char>, i: int, j: int)
    requires
        i < j,
        spec_digit_val(s[i]) >= 1,
    ensures
        spec_digits_val(s, i, j) >= pow10((j - i - 1) as nat),
    decreases j - i,
{
    if j == i + 1 {
    } else {
        lemma_digits_val_lower(s, i, j - 1);
        assert(spec_digits_val(s, i, j - 1) * 10 >= pow10((j - i - 2) as nat) * 10) by (
        nonlinear_arith)
            requires
                spec_digits_val(s, i, j - 1) >= pow10((j - i - 2) as nat),
        ;
    }
}

fn is_digit_char(c: char) -> (r: bool)
    ensures
        r == spec_is_digit(c),
{
    let u = c as u32;
    48 <= u && u <= 57
}

fn parse_number_at(s: &str, i: usize) -> (r: Option<(u32, usize)>)
    requires
        i <= s@.len(),
    ensures
        match spec_parse_number(s@, i as int) {
            Some(p) => r matches Some(q) && q.0 == p.0 && q.1 as int == p.1 && i < q.1 <= s@.len(),
            None => r is None,
        },
{
    let n = s.unicode_len();
    let mut j = i;
    while j < n && is_digit_char(s.get_char(j))
        invariant
            i <= j <= n,
            n == s@.len(),
            spec_digit_run_end(s@, i as int) == spec_digit_run_end(s@, j as int),
        decreases n - j,
    {
        j = j + 1;
    }
    assert(j as int == spec_digit_run_end(s@, i as int));
    if j == i {
        return None;
    }
    if s.get_char(i) == '0' && j > i + 1 {
        return None;
    }
    proof {
        lemma_pow10_vals();
        lemma_run_digits(s@, i as int, i as int);
        assert(spec_digit_val(s@[i as int]) >= 1 || (s@[i as int] == '0' && j == i + 1));
    }
    if j - i > 10 {
        proof {
            lemma_digits_val_lower(s@, i as int, i as int + 11);
            lemma_digits_val_mono(s@, i as int, i as int + 11, j as int);
        }
        return None;
    }
    let mut val: u64 = 0;
    let mut k = i;
    while k < j
        invariant
            i <= k <= j <= n,
            n == s@.len(),
            j - i <= 10,
            j as int == spec_digit_run_end(s@, i as int),
            val == spec_digits_val(s@, i as int, k as int),
            val < pow10((k - i) as nat),
        decreases j - k,
    {
        proof {
            lemma_pow10_vals();
            lemma_run_digits(s@, i as int, k as int);
            assert(pow10(((k - i) + 1) as nat) == 10 * pow10((k - i) as nat));
            assert(pow10((k - i) as nat) <= pow10(9)) by {
                assert forall|a: nat, b: nat| a <= b implies pow10(a) <= pow10(b) by {
                    lemma_pow10_mono(a, b);
                }
            }
        }
        let c = s.get_char(k);
        let d = (c as u32 - 48) as u64;
        val = val * 10 + d;
        k = k + 1;
    }
    if val > 0xFFFF_FFFF {
        None
    } else {
        Some((val as u32, j))
    }
}

proof fn lemma_pow10_mono(a: nat, b: nat)
    requires
        a <= b,
    ensures
        pow10(a) <= pow10(b),
    decreases b,
{
    if a < b {
        lemma_pow10_mono(a, (b - 1) as nat);
        assert(pow10(b) == 10 * pow10((b - 1) as nat));
    }
}

enum Member {
    NameField(String),
    QuantityField(u32),
}

fn parse_member_at(s: &str, i: usize) -> (r: Option<(Member, usize)>)
    requires
        i <= s@.len(),
    ensures
        match spec_parse_member(s@, i as int) {
            Some(p) => r matches Some(m) && m.1 as int == p.1 && i <= m.1 <= s@.len() && (p.0
                matches MemberV::NameField(nm) ==> m.0 matches Member::NameField(v) && v@ == nm)
                && (p.0 matches MemberV::QuantityField(q) ==> m.0 matches Member::QuantityField(
                qq,
            ) && qq == q),
            None => r is None,
        },
{
    let mut key: Vec<char> = Vec::new();
    let j = match parse_string_at(s, i, &mut key) {
        Some(j) => j,
        None => {
            return None;
        },
    };
    let key_s = string_of_chars(&key);
    let j1 = skip_ws_at(s, j);
    let n = s.unicode_len();
    if !(j1 < n && s.get_char(j1) == ':') {
        return None;
    }
    let j2 = skip_ws_at(s, j1 + 1);
    proof {
        reveal_strlit("name");
        reveal_strlit("quantity");
        assert("name"@ =~= spec_name_key());
        assert("quantity"@ =~= spec_quantity_key());
    }
    if key_s == String::from_str("name") {
        let mut val: Vec<char> = Vec::new();
        match parse_string_at(s, j2, &mut val) {
            Some(k) => Some((Member::NameField(string_of_chars(&val)), k)),
            None => None,
        }
    } else if key_s == String::from_str("quantity") {
        match parse_number_at(s, j2) {
            Some((v, k)) => Some((Member::QuantityField(v), k)),
            None => None,
        }
    } else {
        None
    }
}

/// Deserializes an inventory payload, returning `None` exactly on the
/// texts that the wire format refuses.
pub fn parse_inventory_item(s: &str) -> (r: Option<InventoryItem>)
    ensures
        match spec_parse_item(s@) {
            Some(m) => r matches Some(it) && it.name@ == m.0 && it.quantity == m.1,
            None => r is None,
        },
{
    let n = s.unicode_len();
    let i0 = skip_ws_at(s, 0);
    if !(i0 < n && s.get_char(i0) == '{') {
        return None;
    }
    let i1 = skip_ws_at(s, i0 + 1);
    let (m1, j0) = match parse_member_at(s, i1) {
        Some(p) => p,
        None => {
            return None;
        },
    };
    let j1 = skip_ws_at(s, j0);
    if !(j1 < n && s.get_char(j1) == ',') {
        return None;
    }
    let j2 = skip_ws_at(s, j1 + 1);
    let (m2, k0) = match parse_member_at(s, j2) {
        Some(p) => p,
        None => {
            return None;
        },
    };
    let k1 = skip_ws_at(s, k0);
    if !(k1 < n && s.get_char(k1) == '}') {
        return None;
    }
    if skip_ws_at(s, k1 + 1) != n {
        return None;
    }
    match (m1, m2) {
        (Member::NameField(nm), Member::QuantityField(q)) => Some(
            InventoryItem { name: nm, quantity: q },
        ),
        (Member::QuantityField(q), Member::NameField(nm)) => Some(
            InventoryItem { name: nm, quantity: q },
        ),
        _ => None,
    }
}

// ---------------------------------------------------------------------------
// Round trip: parsing an encoded record gives the record back
// ---------------------------------------------------------------------------

proof fn lemma_digit_round_trip(d: nat)
    requires
        d < 10,
    ensures
        spec_is_digit(spec_digit(d)),
        spec_digit_val(spec_digit(d)) == d,
        d >= 1 ==> spec_digit(d) != '0',
{
}

proof fn lemma_hex_round_trip(v: nat)
    requires
        v < 16,
    ensures
        spec_hex_val(spec_hex_digit(v)) == v,
{
}

/// Text without quotes, backslashes or control characters escapes to itself.
proof fn lemma_escape_plain(s: Seq<char>)
    requires
        forall|k: int| 0 <= k < s.len() ==> s[k] != '"' && s[k] != '\\' && (s[k] as u32) >= 0x20,
    ensures
        spec_escape(s) == s,
    decreases s.len(),
{
    if s.len() == 0 {
        assert(spec_escape(s) =~= s);
    } else {
        lemma_escape_plain(s.drop_first());
        assert(spec_escape_char(s[0]) == seq![s[0]]);
        assert(spec_escape(s) =~= s);
    }
}

/// Wherever the escaped form of `name` followed by a closing quote
/// stands in `s`, the string-body parser recovers `name` exactly.
proof fn lemma_parse_body_of_escape(name: Seq<char>, s: Seq<char>, i: int)
    requires
        0 <= i,
        i + spec_escape(name).len() + 1 <= s.len(),
        forall|k: int| 0 <= k < spec_escape(name).len() ==> s[i + k] == spec_escape(name)[k],
        s[i + spec_escape(name).len()] == '"',
    ensures
        spec_parse_string_body(s, i) == Some((name, i + spec_escape(name).len() + 1)),
    decreases name.len(),
{
    if name.len() == 0 {
        assert(spec_escape(name).len() == 0);
        assert(s[i] == '"');
        assert(Seq::<char>::empty() =~= name);
    } else {
        let c = name[0];
        let rest = name.drop_first();
        let ec = spec_escape_char(c);
        let erest = spec_escape(rest);
        assert(spec_escape(name) == ec + erest);
        let el = ec.len() as int;
        assert forall|k: int| 0 <= k < el implies s[i + k] == ec[k] by {
            assert(s[i + k] == spec_escape(name)[k]);
            assert(spec_escape(name)[k] == ec[k]);
        }
        assert forall|k: int| 0 <= k < erest.len() implies s[i + el + k] == erest[k] by {
            assert(spec_escape(name)[el + k] == erest[k]);
            assert(s[i + (el + k)] == spec_escape(name)[el + k]);
        }
        assert(s[i + el + erest.len()] == '"') by {
            assert(i + el + erest.len() == i + spec_escape(name).len());
        }
        lemma_parse_body_of_escape(rest, s, i + el);
        assert(spec_parse_string_body(s, i + el) == Some(
            (rest, i + el + erest.len() + 1),
        ));
        let end = i + spec_escape(name).len() + 1;
        if c == '"' {
            assert(s[i + 0] == ec[0] && s[i + 1] == ec[1]);
            assert(s[i] == '\\' && s[i + 1] == '"');
            assert(spec_simple_unescape(s[i + 1]) == Some('"'));
            assert(spec_parse_string_body(s, i) == Some((seq![c] + rest, end)));
        } else if c == '\\' {
            assert(s[i + 0] == ec[0] && s[i + 1] == ec[1]);
            assert(s[i] == '\\' && s[i + 1] == '\\');
            assert(spec_simple_unescape(s[i + 1]) == Some('\\'));
            assert(spec_parse_string_body(s, i) == Some((seq![c] + rest, end)));
        } else if (c as u32) < 0x20 {
            let v = c as u32;
            assert(s[i + 0] == ec[0] && s[i + 1] == ec[1] && s[i + 2] == ec[2] && s[i + 3]
                == ec[3] && s[i + 4] == ec[4] && s[i + 5] == ec[5]);
            assert(s[i] == '\\' && s[i + 1] == 'u' && s[i + 2] == '0' && s[i + 3] == '0');
            assert(s[i + 4] == spec_hex_digit((v / 16) as nat));
            assert(s[i + 5] == spec_hex_digit((v % 16) as nat));
            lemma_hex_round_trip((v / 16) as nat);
            lemma_hex_round_trip((v % 16) as nat);
            assert(spec_hex_val(s[i + 4]) * 16 + spec_hex_val(s[i + 5]) == v);
            let w = spec_hex_val(s[i + 4]) * 16 + spec_hex_val(s[i + 5]);
            let b: u8 = w as u8;
            let pc = b as char;
            assert(w < 0x20 && b as u32 == v);
            assert(pc as u32 == c as u32);
            vstd::utf8::char_u32_cast(pc, v);
            vstd::utf8::char_u32_cast(c, v);
            assert(pc == c);
            assert(spec_parse_string_body(s, i) == Some((seq![c] + rest, end)));
        } else {
            assert(s[i + 0] == ec[0]);
            assert(s[i] == c);
            assert(spec_parse_string_body(s, i) == Some((seq![c] + rest, end)));
        }
        assert(seq![c] + rest =~= name);
    }
}

/// Wherever a complete JSON string literal for `name` stands in `s`,
/// the string parser recovers `name` exactly.
proof fn lemma_parse_quote(name: Seq<char>, s: Seq<char>, i: int)
    requires
        0 <= i,
        i + spec_quote(name).len() <= s.len(),
        forall|k: int| 0 <= k < spec_quote(name).len() ==> s[i + k] == spec_quote(name)[k],
    ensures
        spec_parse_string(s, i) == Some((name, i + spec_quote(name).len())),
{
    let q = spec_quote(name);
    let e = spec_escape(name);
    assert(q.len() == e.len() + 2);
    assert(s[i] == q[0]);
    assert(q[0] == '"');
    assert forall|k: int| 0 <= k < e.len() implies s[i + 1 + k] == e[k] by {
        assert(q[1 + k] == e[k]);
        assert(s[i + (1 + k)] == q[1 + k]);
    }
    let el = e.len() as int;
    assert(s[i + 1 + el] == '"') by {
        assert(q[1 + el] == '"');
        assert(s[i + (1 + el)] == q[1 + el]);
    }
    lemma_parse_body_of_escape(name, s, i + 1);
}

/// A decimal rendering is all digits, is nonempty, and starts with a
/// nonzero digit unless it renders zero itself.
proof fn lemma_decimal_digits(n: nat)
    ensures
        spec_decimal(n).len() >= 1,
        forall|k: int| 0 <= k < spec_decimal(n).len() ==> spec_is_digit(#[trigger] spec_decimal(
            n,
        )[k]),
        n == 0 ==> spec_decimal(n) == seq!['0'],
        n > 0 ==> spec_digit_val(spec_decimal(n)[0]) >= 1,
    decreases n,
{
    if n < 10 {
        lemma_digit_round_trip(n);
        if n == 0 {
            assert(spec_decimal(n) =~= seq!['0']);
        }
    } else {
        lemma_decimal_digits(n / 10);
        lemma_digit_round_trip(n % 10);
        assert(spec_decimal(n) == spec_decimal(n / 10).push(spec_digit(n % 10)));
        assert(spec_decimal(n)[0] == spec_decimal(n / 10)[0]);
    }
}

/// A maximal digit run ends exactly where the digits stop.
proof fn lemma_run_end_of(s: Seq<char>, i: int, j: int)
    requires
        0 <= i <= j <= s.len(),
        forall|k: int| i <= k < j ==> spec_is_digit(s[k]),
        j == s.len() || !spec_is_digit(s[j]),
    ensures
        spec_digit_run_end(s, i) == j,
    decreases j - i,
{
    if i < j {
        lemma_run_end_of(s, i + 1, j);
    }
}

/// The digits of a decimal rendering evaluate back to the number.
pub proof fn lemma_digits_val_of_decimal(n: nat, s: Seq<char>, i: int)
    requires
        0 <= i,
        i + spec_decimal(n).len() <= s.len(),
        forall|k: int| 0 <= k < spec_decimal(n).len() ==> s[i + k] == spec_decimal(n)[k],
    ensures
        spec_digits_val(s, i, i + spec_decimal(n).len()) == n,
    decreases n,
{
    let d = spec_decimal(n);
    if n < 10 {
        assert(s[i + 0] == d[0]);
        lemma_digit_round_trip(n);
        assert(spec_digits_val(s, i, i) == 0);
        assert(spec_digits_val(s, i, i + 1) == spec_digit_val(s[i]));
    } else {
        let dp = spec_decimal(n / 10);
        let dl = dp.len() as int;
        assert(d == dp.push(spec_digit(n % 10)));
        assert forall|k: int| 0 <= k < dl implies s[i + k] == dp[k] by {
            assert(d[k] == dp[k]);
            assert(s[i + k] == d[k]);
        }
        lemma_digits_val_of_decimal(n / 10, s, i);
        assert(s[i + dl] == d[dl]);
        assert(d[dl] == spec_digit(n % 10));
        lemma_digit_round_trip(n % 10);
        assert(spec_digits_val(s, i, i + dl + 1) == spec_digits_val(s, i, i + dl) * 10
            + spec_digit_val(s[i + dl]));
        vstd::arithmetic::div_mod::lemma_fundamental_div_mod(n as int, 10);
    }
}

/// Wherever the decimal rendering of `n` stands in `s` with no digit
/// straight after it, the number parser recovers `n` exactly.
proof fn lemma_parse_number_of_decimal(n: nat, s: Seq<char>, i: int)
    requires
        n <= u32::MAX,
        0 <= i,
        i + spec_decimal(n).len() <= s.len(),
        forall|k: int| 0 <= k < spec_decimal(n).len() ==> s[i + k] == spec_decimal(n)[k],
        i + spec_decimal(n).len() == s.len() || !spec_is_digit(s[i + spec_decimal(n).len()]),
    ensures
        spec_parse_number(s, i) == Some((n as u32, i + spec_decimal(n).len() as int)),
{
    let d = spec_decimal(n);
    let dl = d.len() as int;
    lemma_decimal_digits(n);
    assert forall|k: int| i <= k < i + dl implies spec_is_digit(s[k]) by {
        assert(s[i + (k - i)] == d[k - i]);
    }
    lemma_run_end_of(s, i, i + dl);
    lemma_digits_val_of_decimal(n, s, i);
    assert(s[i + 0] == d[0]);
    if s[i] == '0' {
        assert(spec_digit_val(d[0]) == 0);
        assert(n == 0);
        assert(dl == 1);
    }
}

/// Round trip: deserializing a serialized inventory record yields the
/// record back, whatever the name and the quantity.
#[verifier::rlimit(50)]
pub proof fn lemma_encode_parse_round_trip(name: Seq<char>, quantity: u32)
    ensures
        spec_parse_item(spec_encode_item(name, quantity)) == Some((name, quantity)),
{
    let s = spec_encode_item(name, quantity);
    let nk = spec_name_key();
    let qk = spec_quantity_key();
    let qn = spec_quote(nk);
    let qv = spec_quote(name);
    let qq = spec_quote(qk);
    let d = spec_decimal(quantity as nat);
    assert(nk[0] == 'n' && nk[1] == 'a' && nk[2] == 'm' && nk[3] == 'e');
    assert(qk[0] == 'q' && qk[1] == 'u' && qk[2] == 'a' && qk[3] == 'n' && qk[4] == 't' && qk[5]
        == 'i' && qk[6] == 't' && qk[7] == 'y');
    lemma_escape_plain(nk);
    lemma_escape_plain(qk);
    assert(qn.len() == 6);
    assert(qq.len() == 10);
    let vl = qv.len() as int;
    let dl = d.len() as int;
    lemma_decimal_digits(quantity as nat);
    let b1: int = 1;
    let c1: int = b1 + 6;
    let v1: int = c1 + 1;
    let m1: int = v1 + vl;
    let b2: int = m1 + 1;
    let c2: int = b2 + 10;
    let n1: int = c2 + 1;
    let e1: int = n1 + dl;
    assert(s == seq!['{'] + qn + seq![':'] + qv + seq![','] + qq + seq![':'] + d + seq!['}']);
    assert(s.len() == e1 + 1);
    assert(s[0] == '{');
    assert forall|k: int| 0 <= k < 6 implies s[b1 + k] == qn[k] by {
        assert(s[b1 + k] == (seq!['{'] + qn)[1 + k]);
    }
    assert(s[c1] == ':');
    assert forall|k: int| 0 <= k < vl implies s[v1 + k] == qv[k] by {
        assert(s[v1 + k] == (seq!['{'] + qn + seq![':'] + qv)[v1 + k]);
    }
    assert(s[m1] == ',');
    assert forall|k: int| 0 <= k < 10 implies s[b2 + k] == qq[k] by {
        assert(s[b2 + k] == (seq!['{'] + qn + seq![':'] + qv + seq![','] + qq)[b2 + k]);
    }
    assert(s[c2] == ':');
    assert forall|k: int| 0 <= k < dl implies s[n1 + k] == d[k] by {
        assert(s[n1 + k] == (seq!['{'] + qn + seq![':'] + qv + seq![','] + qq + seq![':'] + d)[n1
            + k]);
    }
    assert(s[e1] == '}');
    // key 1
    assert(spec_skip_ws(s, 0) == 0);
    assert(s[b1 + 0] == qn[0]);
    assert(s[b1] == '"');
    assert(spec_skip_ws(s, b1) == b1);
    lemma_parse_quote(nk, s, b1);
    assert(spec_skip_ws(s, c1) == c1);
    assert(s[v1 + 0] == qv[0]);
    assert(s[v1] == '"');
    assert(spec_skip_ws(s, c1 + 1) == v1);
    lemma_parse_quote(name, s, v1);
    assert(spec_parse_member(s, b1) == Some((MemberV::NameField(name), m1)));
    // key 2
    assert(spec_skip_ws(s, m1) == m1);
    assert(s[b2 + 0] == qq[0]);
    assert(s[b2] == '"');
    assert(spec_skip_ws(s, m1 + 1) == b2);
    lemma_parse_quote(qk, s, b2);
    assert(qk != nk) by {
        assert(qk.len() != nk.len());
    }
    assert(spec_skip_ws(s, c2) == c2);
    assert(s[n1 + 0] == d[0]);
    assert(spec_is_digit(d[0]));
    assert(!spec_is_ws(s[n1]));
    assert(spec_skip_ws(s, c2 + 1) == n1);
    assert(!spec_is_digit(s[e1]));
    lemma_parse_number_of_decimal(quantity as nat, s, n1);
    assert(spec_parse_member(s, b2) == Some((MemberV::QuantityField(quantity), e1)));
    // closing brace and end of input
    assert(spec_skip_ws(s, e1) == e1);
    assert(spec_skip_ws(s, e1 + 1) == s.len());
    assert(spec_parse_item(s) == Some((name, quantity)));
}

} // verus!
