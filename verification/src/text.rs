//! Text that the model produces or takes apart: default titles and the path
//! inside a `file://` URI.

use vstd::prelude::*;

verus! {

/// The character that stands for a decimal digit.
pub open spec fn digit_char(digit: nat) -> char {
    if digit == 0 {
        '0'
    } else if digit == 1 {
        '1'
    } else if digit == 2 {
        '2'
    } else if digit == 3 {
        '3'
    } else if digit == 4 {
        '4'
    } else if digit == 5 {
        '5'
    } else if digit == 6 {
        '6'
    } else if digit == 7 {
        '7'
    } else if digit == 8 {
        '8'
    } else {
        '9'
    }
}

/// A number written in base ten, without leading zeros.
pub open spec fn decimal(number: nat) -> Seq<char>
    decreases number,
{
    if number < 10 {
        seq![digit_char(number)]
    } else {
        decimal(number / 10).push(digit_char(number % 10))
    }
}

/// The title that terminal number `number` starts with.
pub open spec fn default_title(number: nat) -> Seq<char> {
    "Terminal "@ + decimal(number)
}

fn digit_text(digit: usize) -> (text: &'static str)
    requires
        digit < 10,
    ensures
        text@ == seq![digit_char(digit as nat)],
{
    proof {
        reveal_strlit("0");
        reveal_strlit("1");
        reveal_strlit("2");
        reveal_strlit("3");
        reveal_strlit("4");
        reveal_strlit("5");
        reveal_strlit("6");
        reveal_strlit("7");
        reveal_strlit("8");
        reveal_strlit("9");
    }
    let text = if digit == 0 {
        "0"
    } else if digit == 1 {
        "1"
    } else if digit == 2 {
        "2"
    } else if digit == 3 {
        "3"
    } else if digit == 4 {
        "4"
    } else if digit == 5 {
        "5"
    } else if digit == 6 {
        "6"
    } else if digit == 7 {
        "7"
    } else if digit == 8 {
        "8"
    } else {
        "9"
    };
    assert(text@ =~= seq![digit_char(digit as nat)]);
    text
}

fn append_decimal(text: &mut String, number: usize)
    ensures
        final(text)@ == old(text)@ + decimal(number as nat),
    decreases number,
{
    if number >= 10 {
        append_decimal(text, number / 10);
    }
    text.append(digit_text(number % 10));
    assert(final(text)@ =~= old(text)@ + decimal(number as nat));
}

/// Writes the title that terminal number `number` starts with.
pub fn terminal_title(number: usize) -> (title: String)
    ensures
        title@ == default_title(number as nat),
{
    let mut title = String::from_str("Terminal ");
    append_decimal(&mut title, number);
    title
}

/// How many characters stand before the first `/` of a text: its whole length
/// where it holds none.
pub open spec fn chars_before_slash(text: Seq<char>) -> int
    decreases text.len(),
{
    if text.len() == 0 || text[0] == '/' {
        0
    } else {
        1 + chars_before_slash(text.skip(1))
    }
}

/// The path that a `file://` URI names: what follows the scheme, from the
/// first `/` on, so that a host name is dropped. Where nothing follows the
/// host, what follows the scheme is kept whole. No path for another scheme.
pub open spec fn uri_path(uri: Seq<char>) -> Option<Seq<char>> {
    let scheme = "file://"@;
    if scheme.is_prefix_of(uri) {
        let rest = uri.skip(scheme.len() as int);
        let host = chars_before_slash(rest);
        if host == rest.len() {
            Some(rest)
        } else {
            Some(rest.skip(host))
        }
    } else {
        None
    }
}

/// `chars_before_slash` is the position of the first `/`, or the length.
pub proof fn lemma_chars_before_slash(text: Seq<char>)
    ensures
        0 <= chars_before_slash(text) <= text.len(),
        forall|i: int| 0 <= i < chars_before_slash(text) ==> text[i] != '/',
        chars_before_slash(text) < text.len() ==> text[chars_before_slash(text)] == '/',
    decreases text.len(),
{
    if text.len() == 0 || text[0] == '/' {
    } else {
        let tail = text.skip(1);
        lemma_chars_before_slash(tail);
        assert forall|i: int| 0 <= i < chars_before_slash(text) implies text[i] != '/' by {
            if i > 0 {
                assert(text[i] == tail[i - 1]);
            }
        }
        if chars_before_slash(text) < text.len() {
            assert(text[chars_before_slash(text)] == tail[chars_before_slash(tail)]);
        }
    }
}

proof fn lemma_first_slash_found(text: Seq<char>, position: int)
    requires
        0 <= position <= text.len(),
        forall|i: int| 0 <= i < position ==> text[i] != '/',
        position < text.len() ==> text[position] == '/',
    ensures
        chars_before_slash(text) == position,
{
    lemma_chars_before_slash(text);
    let found = chars_before_slash(text);
    if found < position {
        assert(text[found] == '/');
    } else if position < found {
        assert(text[position] == '/');
    }
}

fn has_file_scheme(uri: &str) -> (yes: bool)
    ensures
        yes == "file://"@.is_prefix_of(uri@),
{
    proof {
        reveal_strlit("file://");
    }
    let scheme = "file://";
    let len: usize = uri.unicode_len();
    if len < 7 {
        return false;
    }
    let mut i: usize = 0;
    while i < 7
        invariant
            i <= 7 <= len,
            len == uri@.len(),
            scheme@ == "file://"@,
            scheme@.len() == 7,
            forall|j: int| 0 <= j < i ==> uri@[j] == scheme@[j],
        decreases 7 - i,
    {
        if uri.get_char(i) != scheme.get_char(i) {
            proof {
                reveal_strlit("file://");
                assert(uri@.subrange(0, 7)[i as int] != scheme@[i as int]);
            }
            return false;
        }
        i += 1;
    }
    assert(uri@.subrange(0, 7) =~= scheme@);
    true
}

/// Takes the path out of a `file://` URI, dropping a host name where there is
/// one. `None` for a text that does not begin with that scheme.
pub fn file_uri_to_path(uri: &str) -> (path: Option<String>)
    ensures
        match path {
            Some(text) => uri_path(uri@) == Some(text@),
            None => uri_path(uri@) is None,
        },
{
    proof {
        reveal_strlit("file://");
    }
    if !has_file_scheme(uri) {
        return None;
    }
    let len: usize = uri.unicode_len();
    let ghost rest = uri@.skip(7);
    let mut i: usize = 7;
    while i < len && uri.get_char(i) != '/'
        invariant
            7 <= i <= len,
            len == uri@.len(),
            rest == uri@.skip(7),
            forall|j: int| 0 <= j < i - 7 ==> rest[j] != '/',
        decreases len - i,
    {
        i += 1;
    }
    proof {
        lemma_first_slash_found(rest, i - 7);
    }
    let start: usize = if i == len {
        7
    } else {
        i
    };
    let path = String::from_str(uri.substring_char(start, len));
    assert(path@ =~= uri_path(uri@).unwrap());
    Some(path)
}

/// The working directory to record for a session: the path of its live URI
/// where that names one, else the stored directory.
pub open spec fn preferred_dir(live_uri: Option<Seq<char>>, stored: Seq<char>) -> Seq<char> {
    match live_uri {
        Some(uri) => match uri_path(uri) {
            Some(path) => path,
            None => stored,
        },
        None => stored,
    }
}

/// The working directory to record for a session, by order of preference:
/// the live one, the stored one, the directory of the process.
pub open spec fn resolved_dir(
    live_uri: Option<Seq<char>>,
    stored: Option<Seq<char>>,
    current_dir: Seq<char>,
) -> Seq<char> {
    match stored {
        Some(dir) => preferred_dir(live_uri, dir),
        None => preferred_dir(live_uri, current_dir),
    }
}

/// Picks the live directory where the session reports one, else the stored
/// one.
pub fn prefer_live_dir(live_uri: Option<&str>, stored: &str) -> (dir: String)
    ensures
        dir@ == preferred_dir(
            match live_uri {
                Some(uri) => Some(uri@),
                None => None,
            },
            stored@,
        ),
{
    match live_uri {
        Some(uri) => match file_uri_to_path(uri) {
            Some(path) => path,
            None => String::from_str(stored),
        },
        None => String::from_str(stored),
    }
}

/// Picks the working directory to record for a session: the live one wins,
/// the stored one is the fallback, the directory of the process comes last.
pub fn resolve_working_dir(
    live_uri: Option<&str>,
    stored: Option<&str>,
    current_dir: &str,
) -> (dir: String)
    ensures
        dir@ == resolved_dir(
            match live_uri {
                Some(uri) => Some(uri@),
                None => None,
            },
            match stored {
                Some(text) => Some(text@),
                None => None,
            },
            current_dir@,
        ),
{
    match stored {
        Some(text) => prefer_live_dir(live_uri, text),
        None => prefer_live_dir(live_uri, current_dir),
    }
}

} // verus!
