//! Decisions of the crate-information command: the cache key of a record,
//! the accent colour picked from the download count, and the download
//! figures grouped for display.

use vstd::prelude::*;
use thousands::Separable;
use crate::common::split_content::string_views;
use crate::text::{chars_to_string, dec_digits, lower, lower_chars, push_dec, str_to_chars};

verus! {

/// The cache key of a crate's record: `crate_info::` followed by the
/// lower-cased crate name.
pub open spec fn crate_info_key_spec(name: Seq<char>) -> Seq<char> {
    "crate_info::"@ + lower(name)
}

/// Builds the cache key of a crate's record.
pub fn crate_info_key(name: &str) -> (r: String)
    ensures
        r@ == crate_info_key_spec(name@),
{
    let chars = str_to_chars(name);
    let lowered = lower_chars(&chars);
    let lowered_str = chars_to_string(&lowered);
    let mut k = String::new();
    k.append("crate_info::");
    k.append(lowered_str.as_str());
    k
}

/// The accent colour picked from a download count, brighter for more
/// widely used crates.
pub open spec fn download_color_spec(downloads: u64) -> u32 {
    if downloads >= 100000000 {
        0x2ecc71
    } else if downloads >= 1000000 {
        0x3498db
    } else if downloads >= 100000 {
        0xf1c40f
    } else if downloads >= 10000 {
        0xe67e22
    } else {
        0xe74c3c
    }
}

/// Picks the accent colour for a download count.
pub fn download_color(downloads: u64) -> (r: u32)
    ensures
        r == download_color_spec(downloads),
{
    if downloads >= 100000000 {
        0x2ecc71
    } else if downloads >= 1000000 {
        0x3498db
    } else if downloads >= 100000 {
        0xf1c40f
    } else if downloads >= 10000 {
        0xe67e22
    } else {
        0xe74c3c
    }
}

/// The keyword or category list of a record: each entry in backticks,
/// each followed by one space.
pub open spec fn backtick_list_spec(items: Seq<Seq<char>>) -> Seq<char>
    decreases items.len(),
{
    if items.len() == 0 {
        Seq::<char>::empty()
    } else {
        backtick_list_spec(items.drop_last()) + seq!['`'] + items.last() + seq!['`', ' ']
    }
}

/// Renders a keyword or category list for display.
pub fn backtick_list(items: &Vec<String>) -> (r: String)
    ensures
        r@ == backtick_list_spec(string_views(items@)),
{
    let mut out: Vec<char> = Vec::new();
    let mut i: usize = 0;
    while i < items.len()
        invariant
            i <= items@.len(),
            out@ == backtick_list_spec(string_views(items@).take(i as int)),
        decreases items@.len() - i,
    {
        let ghost before = string_views(items@).take(i as int);
        out.push('`');
        let item = crate::text::str_to_chars(items[i].as_str());
        crate::text::extend_chars(&mut out, &item);
        out.push('`');
        out.push(' ');
        proof {
            let after = string_views(items@).take(i + 1);
            assert(after.drop_last() =~= before);
            assert(after.last() == items@[i as int]@);
            assert(out@ =~= backtick_list_spec(before) + seq!['`'] + items@[i as int]@ + seq![
                '`',
                ' ',
            ]);
        }
        i += 1;
    }
    proof {
        assert(string_views(items@).take(items@.len() as int) =~= string_views(items@));
    }
    chars_to_string(&out)
}

/// The timestamp field of a record: the epoch seconds wrapped in the
/// chat platform's timestamp markup.
pub open spec fn timestamp_field_spec(epoch_seconds: nat) -> Seq<char> {
    "<t:"@ + dec_digits(epoch_seconds) + ">"@
}

/// Renders the last-update instant of a record for display.
pub fn timestamp_field(epoch_seconds: u64) -> (r: String)
    ensures
        r@ == timestamp_field_spec(epoch_seconds as nat),
{
    let mut digits: Vec<char> = Vec::new();
    push_dec(epoch_seconds, &mut digits);
    let digit_str = chars_to_string(&digits);
    proof {
        assert(digits@ =~= dec_digits(epoch_seconds as nat));
    }
    let mut m = String::new();
    m.append("<t:");
    m.append(digit_str.as_str());
    m.append(">");
    m
}

/// Decimal digits grouped in threes from the right with an apostrophe.
pub open spec fn group_digits(ds: Seq<char>) -> Seq<char>
    decreases ds.len(),
{
    if ds.len() <= 3 {
        ds
    } else {
        group_digits(ds.take(ds.len() - 3)) + seq!['\''] + ds.skip(ds.len() - 3)
    }
}

/// Relies on `thousands::Separable::separate_by_policy` with separator
/// `'`, groups of three, and the ASCII decimal digits: the decimal
/// representation of the number with an apostrophe between each group of
/// three digits, counted from the right.
#[verifier::external_body]
fn separate_thousands(n: u64) -> (r: String)
    ensures
        r@ == group_digits(dec_digits(n as nat)),
{
    n.separate_by_policy(
        thousands::SeparatorPolicy {
            separator: "'",
            groups: &[3],
            digits: thousands::digits::ASCII_DECIMAL,
        },
    )
}

/// What the download figures of a record look like: the total, grouped,
/// with the recent count in parentheses when one is known.
pub open spec fn downloads_field_spec(downloads: nat, recent: Option<u64>) -> Seq<char> {
    match recent {
        Some(r) => group_digits(dec_digits(downloads)) + " ("@ + group_digits(
            dec_digits(r as nat),
        ) + ")"@,
        None => group_digits(dec_digits(downloads)),
    }
}

/// Renders the download figures of a record for display.
pub fn downloads_field(downloads: u64, recent: Option<u64>) -> (r: String)
    ensures
        r@ == downloads_field_spec(downloads as nat, recent),
{
    let total = separate_thousands(downloads);
    match recent {
        Some(rc) => {
            let recent_str = separate_thousands(rc);
            let mut m = String::new();
            m.append(total.as_str());
            m.append(" (");
            m.append(recent_str.as_str());
            m.append(")");
            m
        },
        None => total,
    }
}

} // verus!
