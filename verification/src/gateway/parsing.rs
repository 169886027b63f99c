use crate::orderbook::order_type::OrderType;
use crate::orderbook::side::Side;
use vstd::prelude::*;

verus! {

/// `c` has the Unicode `White_Space` property, which `char::is_whitespace`
/// and so `str::trim` go by.
pub open spec fn is_white_space(c: char) -> bool {
    let n = c as u32;
    ||| 0x9 <= n <= 0xd
    ||| n == 0x20
    ||| n == 0x85
    ||| n == 0xa0
    ||| n == 0x1680
    ||| 0x2000 <= n <= 0x200a
    ||| n == 0x2028
    ||| n == 0x2029
    ||| n == 0x202f
    ||| n == 0x205f
    ||| n == 0x3000
}

/// `s` without its leading white space.
pub open spec fn trim_start(s: Seq<char>) -> Seq<char>
    decreases s.len(),
{
    if s.len() > 0 && is_white_space(s[0]) {
        trim_start(s.drop_first())
    } else {
        s
    }
}

/// `s` without its trailing white space.
pub open spec fn trim_end(s: Seq<char>) -> Seq<char>
    decreases s.len(),
{
    if s.len() > 0 && is_white_space(s.last()) {
        trim_end(s.drop_last())
    } else {
        s
    }
}

/// `s` without its leading and trailing white space.
pub open spec fn trimmed(s: Seq<char>) -> Seq<char> {
    trim_end(trim_start(s))
}

/// What `str::to_lowercase` returns for a string: its Unicode lowercase mapping.
pub uninterp spec fn lowercased(s: Seq<char>) -> Seq<char>;

/// Calls `str::trim`. Trusted: the result is the input with its leading
/// and trailing white space (Unicode `White_Space`) removed.
#[verifier::external_body]
fn trim(s: &str) -> (r: &str)
    ensures
        r@ == trimmed(s@),
{
    s.trim()
}

/// Every character of `s` is ASCII.
pub open spec fn all_ascii(s: Seq<char>) -> bool {
    forall|i: int| 0 <= i < s.len() ==> (s[i] as u32) < 0x80
}

/// `s` with its ASCII capital letters lowercased.
pub open spec fn ascii_lowercased(s: Seq<char>) -> Seq<char> {
    s.map_values(|c: char| ascii_lower(c))
}

/// `c` lowercased when it is an ASCII capital letter, else `c` itself.
pub open spec fn ascii_lower(c: char) -> char {
    if 0x41 <= (c as u32) <= 0x5a {
        ((c as u32) + 32) as char
    } else {
        c
    }
}

/// Calls `str::to_lowercase`. Trusted: the result is `lowercased` of the
/// input, and for an all-ASCII input it is the input with `A`-`Z` turned
/// into `a`-`z` and every other character kept; the rest of the Unicode
/// case mapping is left to the name.
#[verifier::external_body]
fn to_lowercase(s: &str) -> (r: String)
    ensures
        r@ == lowercased(s@),
        all_ascii(s@) ==> r@ == ascii_lowercased(s@),
{
    s.to_lowercase()
}

/// The text compared against the names below.
pub open spec fn normalized(input: Seq<char>) -> Seq<char> {
    lowercased(trimmed(input))
}

pub open spec fn side_named(s: Seq<char>) -> Option<Side> {
    if s == "buy"@ {
        Some(Side::Buy)
    } else if s == "sell"@ {
        Some(Side::Sell)
    } else {
        None
    }
}

pub open spec fn order_type_named(s: Seq<char>) -> Option<OrderType> {
    if s == "market"@ {
        Some(OrderType::Market)
    } else if s == "limit"@ || s == "gtc"@ || s == "goodtillcancel"@ || s == "good_till_cancel"@ {
        Some(OrderType::GoodTillCancel)
    } else if s == "fak"@ || s == "ioc"@ || s == "fillandkill"@ || s == "fill_and_kill"@ {
        Some(OrderType::FillAndKill)
    } else if s == "fok"@ || s == "fillorkill"@ || s == "fill_or_kill"@ {
        Some(OrderType::FillOrKill)
    } else if s == "postonly"@ || s == "post_only"@ || s == "post-only"@ {
        Some(OrderType::PostOnly)
    } else {
        None
    }
}

fn is(s: &str, name: &str) -> (r: bool)
    ensures
        r == (s@ == name@),
{
    s.to_owned() == name.to_owned()
}

/// The side named by already normalized text.
pub fn side_from_normalized(s: &str) -> (r: Option<Side>)
    ensures
        r == side_named(s@),
{
    if is(s, "buy") {
        Some(Side::Buy)
    } else if is(s, "sell") {
        Some(Side::Sell)
    } else {
        None
    }
}

/// The order type named by already normalized text; several spellings
/// name each type.
pub fn order_type_from_normalized(s: &str) -> (r: Option<OrderType>)
    ensures
        r == order_type_named(s@),
{
    if is(s, "market") {
        Some(OrderType::Market)
    } else if is(s, "limit") || is(s, "gtc") || is(s, "goodtillcancel") || is(
        s,
        "good_till_cancel",
    ) {
        Some(OrderType::GoodTillCancel)
    } else if is(s, "fak") || is(s, "ioc") || is(s, "fillandkill") || is(s, "fill_and_kill") {
        Some(OrderType::FillAndKill)
    } else if is(s, "fok") || is(s, "fillorkill") || is(s, "fill_or_kill") {
        Some(OrderType::FillOrKill)
    } else if is(s, "postonly") || is(s, "post_only") || is(s, "post-only") {
        Some(OrderType::PostOnly)
    } else {
        None
    }
}

/// The side named by `input`, ignoring surrounding white space and case.
pub fn parse_side(input: &str) -> (r: Option<Side>)
    ensures
        r == side_named(normalized(input@)),
        all_ascii(trimmed(input@)) ==> r == side_named(ascii_lowercased(trimmed(input@))),
{
    let s = to_lowercase(trim(input));
    side_from_normalized(s.as_str())
}

/// The order type named by `input`, ignoring surrounding white space and
/// case; several spellings name each type.
pub fn parse_order_type(input: &str) -> (r: Option<OrderType>)
    ensures
        r == order_type_named(normalized(input@)),
        all_ascii(trimmed(input@)) ==> r == order_type_named(ascii_lowercased(trimmed(input@))),
{
    let s = to_lowercase(trim(input));
    order_type_from_normalized(s.as_str())
}

/// The first identity field that is zero, as the message reporting it.
pub open spec fn identity_problem(instrument_id: u32, account_id: u64, request_id: u64) -> Option<
    Seq<char>,
> {
    if instrument_id == 0 {
        Some("instrument_id must be greater than 0"@)
    } else if account_id == 0 {
        Some("account_id must be greater than 0"@)
    } else if request_id == 0 {
        Some("request_id must be greater than 0"@)
    } else {
        None
    }
}

/// Every identity field of a request must be non-zero; the message tells
/// the first that is not.
pub fn validate_request_identity(instrument_id: u32, account_id: u64, request_id: u64) -> (r:
    Option<&'static str>)
    ensures
        r is None <==> identity_problem(instrument_id, account_id, request_id) is None,
        r matches Some(m) ==> identity_problem(instrument_id, account_id, request_id) == Some(
            m@,
        ),
{
    if instrument_id == 0 {
        return Some("instrument_id must be greater than 0");
    }
    if account_id == 0 {
        return Some("account_id must be greater than 0");
    }
    if request_id == 0 {
        return Some("request_id must be greater than 0");
    }
    None
}

} // verus!
