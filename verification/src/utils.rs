//! Identifier allocation and small markup helpers shared by all widgets.

use vstd::prelude::*;
use vstd::string::*;

verus! {

/// Number of random symbols in an identifier.
pub const TOKEN_LEN: usize = 21;

/// The symbols an identifier's random part is drawn from.
pub open spec fn is_id_symbol(c: char) -> bool {
    c == '_' || c == '-' || ('0' <= c && c <= '9') || ('a' <= c && c <= 'z') || ('A' <= c && c
        <= 'Z')
}

/// A random token: `TOKEN_LEN` symbols of the identifier alphabet.
pub open spec fn is_token(s: Seq<char>) -> bool {
    &&& s.len() == TOKEN_LEN
    &&& forall|i: int| 0 <= i < s.len() ==> is_id_symbol(#[trigger] s[i])
}

/// The shape of every component identifier: `id-` followed by a random token.
pub open spec fn is_component_id(s: Seq<char>) -> bool {
    exists|token: Seq<char>| is_token(token) && s == "id-"@ + token
}

/// The shape of an identifier that carries a suffix: `id-<token>-<suffix>`.
pub open spec fn is_suffix_id(s: Seq<char>, suffix: Seq<char>) -> bool {
    exists|token: Seq<char>| is_token(token) && s == "id-"@ + token + "-"@ + suffix
}

/// The standard container markup around `content`.
pub open spec fn div_markup(content: Seq<char>) -> Seq<char> {
    "<div class=\"w-100 h-100\">"@ + content + "</div>"@
}

/// How a boolean is written inside markup and scripts.
pub open spec fn bool_text(b: bool) -> Seq<char> {
    if b {
        "true"@
    } else {
        "false"@
    }
}

/// The text of one decimal digit.
pub open spec fn digit_text(d: int) -> Seq<char> {
    if d == 0 {
        "0"@
    } else if d == 1 {
        "1"@
    } else if d == 2 {
        "2"@
    } else if d == 3 {
        "3"@
    } else if d == 4 {
        "4"@
    } else if d == 5 {
        "5"@
    } else if d == 6 {
        "6"@
    } else if d == 7 {
        "7"@
    } else if d == 8 {
        "8"@
    } else {
        "9"@
    }
}

/// The decimal text of a natural number, most significant digit first.
pub open spec fn decimal_text(n: nat) -> Seq<char>
    decreases n,
{
    if n < 10 {
        digit_text(n as int)
    } else {
        decimal_text(n / 10) + digit_text((n % 10) as int)
    }
}

/// Draws a fresh random token from `nanoid::format` with the default random
/// source, the URL-safe alphabet and 21 symbols. The generator returns exactly
/// as many symbols as asked for, each taken from the alphabet it was given;
/// which symbols come out depends on chance, so nothing more is claimed.
#[verifier::external_body]
fn random_token() -> (token: String)
    ensures
        is_token(token@),
{
    nanoid::format(nanoid::rngs::default, &nanoid::alphabet::SAFE, 21)
}

/// Create a new id for a component.
pub fn create_id() -> (id: String)
    ensures
        is_component_id(id@),
{
    let token = random_token();
    let mut id = String::from_str("id-");
    id.append(token.as_str());
    id
}

/// Create a new id with suffix for a component.
pub fn create_suffix_id(suffix: &str) -> (id: String)
    ensures
        is_suffix_id(id@, suffix@),
{
    let token = random_token();
    let mut id = String::from_str("id-");
    id.append(token.as_str());
    id.append("-");
    id.append(suffix);
    id
}

/// Create a standard div containing a component.
pub fn create_div(content: &str) -> (html: String)
    ensures
        html@ == div_markup(content@),
{
    let mut html = String::from_str("<div class=\"w-100 h-100\">");
    html.append(content);
    html.append("</div>");
    html
}

/// Writes a boolean as `true` or `false`.
pub fn bool_to_text(b: bool) -> (text: &'static str)
    ensures
        text@ == bool_text(b),
{
    if b {
        "true"
    } else {
        "false"
    }
}

fn digit_to_text(d: u8) -> (text: &'static str)
    requires
        d < 10,
    ensures
        text@ == digit_text(d as int),
{
    if d == 0 {
        "0"
    } else if d == 1 {
        "1"
    } else if d == 2 {
        "2"
    } else if d == 3 {
        "3"
    } else if d == 4 {
        "4"
    } else if d == 5 {
        "5"
    } else if d == 6 {
        "6"
    } else if d == 7 {
        "7"
    } else if d == 8 {
        "8"
    } else {
        "9"
    }
}

/// Writes a byte in decimal, without leading zeros.
pub fn u8_to_text(n: u8) -> (text: String)
    ensures
        text@ == decimal_text(n as nat),
{
    if n >= 100 {
        let mut text = String::from_str(digit_to_text(n / 100));
        text.append(digit_to_text((n / 10) % 10));
        text.append(digit_to_text(n % 10));
        proof {
            let tens = (n / 10) as nat;
            assert(tens / 10 == (n / 100) as nat);
            assert(decimal_text(tens) == decimal_text(tens / 10) + digit_text((tens % 10) as int));
            assert(decimal_text(n as nat) == decimal_text(tens) + digit_text((n % 10) as int));
        }
        text
    } else if n >= 10 {
        let mut text = String::from_str(digit_to_text(n / 10));
        text.append(digit_to_text(n % 10));
        proof {
            assert(decimal_text(n as nat) == decimal_text((n / 10) as nat) + digit_text(
                (n % 10) as int,
            ));
        }
        text
    } else {
        String::from_str(digit_to_text(n))
    }
}

} // verus!
