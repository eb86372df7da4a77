//! From what a caller asked for to what is measured and how it is shown.

use vstd::prelude::*;
use crate::encoding::{parse_name, Encoding};
use crate::engine::{effective_encodings, Selection};
use crate::present::Mode;

verus! {

/// Why a list of names is no selection.
#[derive(Clone, Copy, Debug, PartialEq, Eq, Structural)]
pub enum SelectionError {
    /// The name at position `index` (counting from zero) is neither empty
    /// nor the name of an encoding.
    UnknownEncoding { index: usize },
}

/// What to measure and how to present it.
#[derive(Clone, Debug)]
pub struct Config {
    pub selection: Selection,
    pub mode: Mode,
}

/// Whether a name can stand in a selection: it is empty or names an
/// encoding.
pub open spec fn acceptable(name: Seq<char>) -> bool {
    name.len() == 0 || parse_name(name) is Some
}

/// The encodings that a list of names stands for, in order. Empty names
/// stand for nothing.
pub open spec fn named_encodings(names: Seq<String>) -> Seq<Encoding>
    decreases names.len(),
{
    if names.len() == 0 {
        Seq::<Encoding>::empty()
    } else {
        let before = named_encodings(names.drop_last());
        match parse_name(names.last()@) {
            Some(e) => before.push(e),
            None => before,
        }
    }
}

/// The presentation that a selection implies, unless the caller says
/// otherwise: lines of text where one encoding was named or none at all, a
/// table for any other list.
pub open spec fn implied_mode(requested: Selection) -> Mode {
    match requested {
        Selection::All => Mode::SingleValue,
        Selection::Listed(_) => if effective_encodings(requested).len() == 1 {
            Mode::SingleValue
        } else {
            Mode::Tabular
        },
    }
}

impl Selection {
    /// Reads a selection from a list of encoding names.
    ///
    /// Empty names are passed over. The first name that is neither empty
    /// nor an encoding's name, in any case of letters, fails the whole list
    /// before anything is measured.
    pub fn from_names(names: &Vec<String>) -> (outcome: Result<Selection, SelectionError>)
        ensures
            outcome is Ok <==> forall|i: int|
                0 <= i < names.len() ==> acceptable(#[trigger] names@[i]@),
            match outcome {
                Ok(Selection::Listed(list)) => list@ == named_encodings(names@),
                Ok(Selection::All) => false,
                Err(SelectionError::UnknownEncoding { index }) => {
                    &&& index < names.len()
                    &&& !acceptable(names@[index as int]@)
                    &&& forall|i: int| 0 <= i < index ==> acceptable(#[trigger] names@[i]@)
                },
            },
    {
        let mut list: Vec<Encoding> = Vec::new();
        let mut i: usize = 0;
        while i < names.len()
            invariant
                i <= names.len(),
                forall|k: int| 0 <= k < i ==> acceptable(#[trigger] names@[k]@),
                list@ == named_encodings(names@.take(i as int)),
            decreases names.len() - i,
        {
            let name = names[i].as_str();
            proof {
                let upto = names@.take(i + 1);
                assert(upto.drop_last() =~= names@.take(i as int));
                assert(upto.last() == names@[i as int]);
            }
            match Encoding::from_name(name) {
                Some(e) => {
                    list.push(e);
                },
                None => {
                    if !name.is_empty() {
                        return Err(SelectionError::UnknownEncoding { index: i });
                    }
                },
            }
            i = i + 1;
        }
        assert(names@.take(i as int) =~= names@);
        Ok(Selection::Listed(list))
    }

    /// The presentation this selection implies.
    pub fn implied_mode(&self) -> (mode: Mode)
        ensures
            mode == implied_mode(*self),
    {
        match self {
            Selection::All => Mode::SingleValue,
            Selection::Listed(_) => if self.effective().len() == 1 {
                Mode::SingleValue
            } else {
                Mode::Tabular
            },
        }
    }
}

impl Config {
    /// The configuration for a request: the names the caller listed, if
    /// any, select the encodings; no list selects them all. The presentation
    /// is the one the selection implies.
    pub fn from_request(names: Option<Vec<String>>) -> (outcome: Result<Config, SelectionError>)
        ensures
            outcome is Ok <==> (names matches Some(list) ==> forall|i: int|
                0 <= i < list.len() ==> acceptable(#[trigger] list@[i]@)),
            match (names, outcome) {
                (None, Ok(config)) => config.selection is All && config.mode == Mode::SingleValue,
                (None, Err(_)) => false,
                (Some(list), Ok(config)) => {
                    &&& config.selection matches Selection::Listed(encodings)
                    &&& encodings@ == named_encodings(list@)
                    &&& config.mode == implied_mode(config.selection)
                },
                (Some(list), Err(SelectionError::UnknownEncoding { index })) => {
                    &&& index < list.len()
                    &&& !acceptable(list@[index as int]@)
                    &&& forall|i: int| 0 <= i < index ==> acceptable(#[trigger] list@[i]@)
                },
            },
    {
        match names {
            None => Ok(Config { selection: Selection::All, mode: Mode::SingleValue }),
            Some(list) => match Selection::from_names(&list) {
                Ok(selection) => {
                    let mode = selection.implied_mode();
                    Ok(Config { selection, mode })
                },
                Err(e) => Err(e),
            },
        }
    }
}

} // verus!
