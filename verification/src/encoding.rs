//! The closed set of encodings a buffer can be measured under.

use vstd::prelude::*;

verus! {

/// One way of encoding a byte buffer before its length is taken.
#[derive(Clone, Copy, Debug, PartialEq, Eq, Structural)]
pub enum Encoding {
    /// The buffer as it stands.
    Raw,
    /// A zlib (DEFLATE) stream at the highest compression level.
    Gzip,
    /// A Brotli stream at the highest quality.
    Brotli,
}

/// The encodings measured when the caller names none, in the order in which
/// they are reported.
pub open spec fn canonical_order() -> Seq<Encoding> {
    seq![Encoding::Raw, Encoding::Gzip, Encoding::Brotli]
}

/// The short name under which an encoding is shown, as characters.
pub open spec fn label_text(e: Encoding) -> Seq<char> {
    match e {
        Encoding::Raw => "raw"@,
        Encoding::Gzip => "gz"@,
        Encoding::Brotli => "br"@,
    }
}

/// Whether `c` is the given letter, small or capital.
pub open spec fn same_letter(c: char, small: char, capital: char) -> bool {
    c == small || c == capital
}

/// The encoding that a name stands for. A name is a label in any mix of
/// small and capital letters; anything else names no encoding.
pub open spec fn parse_name(text: Seq<char>) -> Option<Encoding> {
    if text.len() == 3 && same_letter(text[0], 'r', 'R') && same_letter(text[1], 'a', 'A')
        && same_letter(text[2], 'w', 'W') {
        Some(Encoding::Raw)
    } else if text.len() == 2 && same_letter(text[0], 'g', 'G') && same_letter(text[1], 'z', 'Z') {
        Some(Encoding::Gzip)
    } else if text.len() == 2 && same_letter(text[0], 'b', 'B') && same_letter(text[1], 'r', 'R') {
        Some(Encoding::Brotli)
    } else {
        None
    }
}

/// Every label names the encoding it belongs to.
pub proof fn lemma_label_names_itself(e: Encoding)
    ensures
        parse_name(label_text(e)) == Some(e),
{
    reveal_strlit("raw");
    reveal_strlit("gz");
    reveal_strlit("br");
}

impl Encoding {
    /// The short name under which this encoding is shown: `raw`, `gz` or `br`.
    pub fn label(&self) -> (name: &'static str)
        ensures
            name@ == label_text(*self),
    {
        match self {
            Encoding::Raw => "raw",
            Encoding::Gzip => "gz",
            Encoding::Brotli => "br",
        }
    }

    /// Finds the encoding that `name` stands for, whatever the case of its
    /// letters.
    pub fn from_name(name: &str) -> (found: Option<Encoding>)
        ensures
            found == parse_name(name@),
    {
        let len = name.unicode_len();
        if len == 3 {
            let first = name.get_char(0);
            let second = name.get_char(1);
            let third = name.get_char(2);
            if (first == 'r' || first == 'R') && (second == 'a' || second == 'A') && (third == 'w'
                || third == 'W') {
                Some(Encoding::Raw)
            } else {
                None
            }
        } else if len == 2 {
            let first = name.get_char(0);
            let second = name.get_char(1);
            if (first == 'g' || first == 'G') && (second == 'z' || second == 'Z') {
                Some(Encoding::Gzip)
            } else if (first == 'b' || first == 'B') && (second == 'r' || second == 'R') {
                Some(Encoding::Brotli)
            } else {
                None
            }
        } else {
            None
        }
    }

    /// Every encoding, in canonical order.
    pub fn all() -> (list: Vec<Encoding>)
        ensures
            list@ == canonical_order(),
    {
        let mut list: Vec<Encoding> = Vec::new();
        list.push(Encoding::Raw);
        list.push(Encoding::Gzip);
        list.push(Encoding::Brotli);
        list
    }
}

} // verus!
