use vstd::prelude::*;

verus! {

/// What `snailquote::unescape` makes of a quoted text: the text with its
/// quotes removed and its escapes replaced, or, where an escape is not
/// supported, the index that the error carries (counted in characters).
pub uninterp spec fn unescaped(quoted: Seq<char>) -> Result<Seq<char>, usize>;

/// The character that a backslash and `c` stand for between double quotes,
/// for the escapes of the crate's table that are made of two characters.
pub open spec fn escape_of(c: char) -> Option<char> {
    if c == 'a' {
        Some('\u{07}')
    } else if c == 'b' {
        Some('\u{08}')
    } else if c == 'v' {
        Some('\u{0b}')
    } else if c == 'f' {
        Some('\u{0c}')
    } else if c == 'n' {
        Some('\n')
    } else if c == 'r' {
        Some('\r')
    } else if c == 't' {
        Some('\t')
    } else if c == 'e' || c == 'E' {
        Some('\u{1b}')
    } else if c == '\\' || c == '\'' || c == '"' || c == '$' || c == '`' {
        Some(c)
    } else {
        None
    }
}

/// The inside of a double-quoted text with every escape replaced, where
/// it is made of nothing but escapes of `escape_of` and characters other
/// than the backslash and the double quote.
pub open spec fn replaced(body: Seq<char>) -> Option<Seq<char>>
    decreases body.len(),
{
    if body.len() == 0 {
        Some(Seq::empty())
    } else if body[0] == '\\' {
        if body.len() >= 2 && escape_of(body[1]) is Some {
            match replaced(body.subrange(2, body.len() as int)) {
                Some(rest) => Some(seq![escape_of(body[1])->0] + rest),
                None => None,
            }
        } else {
            None
        }
    } else if body[0] == '"' {
        None
    } else {
        match replaced(body.drop_first()) {
            Some(rest) => Some(seq![body[0]] + rest),
            None => None,
        }
    }
}

/// What a text between two double quotes says, where `replaced` covers
/// its inside.
pub open spec fn content(quoted: Seq<char>) -> Option<Seq<char>> {
    if quoted.len() >= 2 && quoted[0] == '"' && quoted.last() == '"' {
        replaced(quoted.subrange(1, quoted.len() - 1))
    } else {
        None
    }
}

/// The outcome of un-escaping, with the text as a sequence of characters.
pub open spec fn outcome_view(outcome: Result<String, usize>) -> Result<Seq<char>, usize> {
    match outcome {
        Ok(text) => Ok(text@),
        Err(index) => Err(index),
    }
}

/// Calls `snailquote::unescape` on `quoted`. The contract names the result:
/// the same text always gives the same outcome. It says what the result is
/// for a text between two double quotes whose inside holds no other double
/// quote and no backslash but in the two-character escapes of the crate's
/// table: the inside, each escape replaced by its character. Of the error
/// it keeps the `index` field, which both of the crate's error variants carry.
#[verifier::external_body]
pub(crate) fn unescape_quoted(quoted: &str) -> (outcome: Result<String, usize>)
    ensures
        outcome_view(outcome) == unescaped(quoted@),
        content(quoted@) is Some ==> outcome_view(outcome) is Ok && outcome_view(outcome)->Ok_0
            == content(quoted@)->Some_0,
{
    match snailquote::unescape(quoted) {
        Ok(text) => Ok(text),
        Err(snailquote::UnescapeError::InvalidEscape { index, .. }) => Err(index),
        Err(snailquote::UnescapeError::InvalidUnicode { index, .. }) => Err(index),
    }
}

} // verus!
