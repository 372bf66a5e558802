//! Input validation for tickers, e-mail addresses and free-form text.

use vstd::prelude::*;

use crate::text::push_char;

verus! {

/// An ASCII letter or digit.
pub open spec fn is_ascii_alnum(c: char) -> bool {
    ('0' <= c && c <= '9') || ('a' <= c && c <= 'z') || ('A' <= c && c <= 'Z')
}

/// A character a ticker symbol may hold: symbols are quoted in upper case.
pub open spec fn is_ticker_char(c: char) -> bool {
    ('0' <= c && c <= '9') || ('A' <= c && c <= 'Z')
}

/// A well-formed ticker symbol: one to ten uppercase ASCII letters or digits.
pub open spec fn valid_ticker(s: Seq<char>) -> bool {
    1 <= s.len() <= 10 && forall|i: int| 0 <= i < s.len() ==> is_ticker_char(#[trigger] s[i])
}

/// Accepts exactly the well-formed ticker symbols.
pub fn is_valid_ticker_format(ticker: &str) -> (r: bool)
    ensures
        r == valid_ticker(ticker@),
{
    let len = ticker.unicode_len();
    if len == 0 || len > 10 {
        return false;
    }
    let mut i: usize = 0;
    while i < len
        invariant
            0 <= i <= len,
            len == ticker@.len(),
            1 <= len <= 10,
            forall|j: int| 0 <= j < i ==> is_ticker_char(#[trigger] ticker@[j]),
        decreases len - i,
    {
        let c = ticker.get_char(i);
        let ok = ('0' <= c && c <= '9') || ('A' <= c && c <= 'Z');
        if !ok {
            return false;
        }
        i += 1;
    }
    true
}

/// A character that survives sanitization: ASCII letters and digits,
/// the space, the dash and the underscore.
pub open spec fn keeps_char(c: char) -> bool {
    is_ascii_alnum(c) || c == ' ' || c == '-' || c == '_'
}

/// The sanitized form of a string: the surviving characters in order,
/// cut off after `max` of them.
pub open spec fn sanitized(s: Seq<char>, max: nat) -> Seq<char>
    decreases s.len(),
{
    if s.len() == 0 || max == 0 {
        Seq::empty()
    } else if keeps_char(s[0]) {
        seq![s[0]] + sanitized(s.drop_first(), (max - 1) as nat)
    } else {
        sanitized(s.drop_first(), max)
    }
}

/// Keeps only letters, digits, spaces, dashes and underscores, and cuts the
/// result off after `max_length` characters.
pub fn sanitize_string_input(input: &str, max_length: usize) -> (r: String)
    ensures
        r@ == sanitized(input@, max_length as nat),
{
    let len = input.unicode_len();
    let mut out = String::new();
    let mut kept: usize = 0;
    let mut i: usize = 0;
    proof {
        assert(input@.skip(0) =~= input@);
        assert(out@ + sanitized(input@, max_length as nat) =~= sanitized(
            input@,
            max_length as nat,
        ));
    }
    while i < len && kept < max_length
        invariant
            0 <= i <= len,
            len == input@.len(),
            kept == out@.len(),
            kept <= max_length,
            out@ + sanitized(input@.skip(i as int), (max_length - kept) as nat) == sanitized(
                input@,
                max_length as nat,
            ),
        decreases len - i,
    {
        let c = input.get_char(i);
        let ghost rem = input@.skip(i as int);
        proof {
            assert(rem[0] == input@[i as int]);
            assert(rem.drop_first() =~= input@.skip(i + 1));
        }
        let is_alnum = ('0' <= c && c <= '9') || ('a' <= c && c <= 'z') || ('A' <= c && c <= 'Z');
        if is_alnum || c == ' ' || c == '-' || c == '_' {
            push_char(&mut out, c);
            kept += 1;
            proof {
                assert(out@ + sanitized(input@.skip(i + 1), (max_length - kept) as nat) =~= (
                out@.drop_last() + sanitized(rem, (max_length - (kept - 1)) as nat)));
            }
        }
        i += 1;
    }
    proof {
        if i == len {
            assert(input@.skip(len as int) =~= Seq::<char>::empty());
        }
        assert(out@ + Seq::<char>::empty() =~= out@);
    }
    out
}

/// A plausible e-mail address: at most 254 characters, holding an '@' that is
/// neither the first nor the last character.
pub open spec fn valid_email(s: Seq<char>) -> bool {
    1 <= s.len() <= 254 && s.contains('@') && s[0] != '@' && s[s.len() - 1] != '@'
}

/// Accepts exactly the plausible e-mail addresses.
pub fn is_valid_email(email: &str) -> (r: bool)
    ensures
        r == valid_email(email@),
{
    let len = email.unicode_len();
    if len == 0 || len > 254 {
        return false;
    }
    if email.get_char(0) == '@' || email.get_char(len - 1) == '@' {
        return false;
    }
    let mut i: usize = 0;
    while i < len
        invariant
            0 <= i <= len,
            len == email@.len(),
            1 <= len <= 254,
            email@[0] != '@',
            email@[email@.len() - 1] != '@',
            forall|j: int| 0 <= j < i ==> email@[j] != '@',
        decreases len - i,
    {
        if email.get_char(i) == '@' {
            assert(email@.contains('@'));
            return true;
        }
        i += 1;
    }
    assert(!email@.contains('@'));
    false
}

} // verus!
