use sizr::config::{Config, SelectionError};
use sizr::encoding::Encoding;
use sizr::engine::Selection;
use sizr::present::Mode;

fn names(list: &[&str]) -> Vec<String> {
    list.iter().map(|name| name.to_string()).collect()
}

fn listed(selection: Selection) -> Vec<Encoding> {
    match selection {
        Selection::Listed(list) => list,
        Selection::All => panic!("a list of names never selects all"),
    }
}

#[test]
fn names_are_read_in_order() {
    let selection = Selection::from_names(&names(&["br", "RAW", "Gz"])).unwrap();
    assert_eq!(listed(selection), vec![Encoding::Brotli, Encoding::Raw, Encoding::Gzip]);
}

#[test]
fn repeated_names_are_kept_until_measuring() {
    let selection = Selection::from_names(&names(&["gz", "gz"])).unwrap();
    assert_eq!(listed(selection.clone()), vec![Encoding::Gzip, Encoding::Gzip]);
    assert_eq!(selection.effective(), vec![Encoding::Gzip]);
}

#[test]
fn empty_names_are_passed_over() {
    let selection = Selection::from_names(&names(&["br", ""])).unwrap();
    assert_eq!(listed(selection), vec![Encoding::Brotli]);
    let selection = Selection::from_names(&names(&["", "raw", "", "gz", ""])).unwrap();
    assert_eq!(listed(selection), vec![Encoding::Raw, Encoding::Gzip]);
    let selection = Selection::from_names(&names(&[""])).unwrap();
    assert_eq!(listed(selection), Vec::<Encoding>::new());
    let selection = Selection::from_names(&names(&[])).unwrap();
    assert_eq!(listed(selection), Vec::<Encoding>::new());
}

#[test]
fn the_first_unknown_name_fails_the_list() {
    assert_eq!(
        Selection::from_names(&names(&["zip"])).unwrap_err(),
        SelectionError::UnknownEncoding { index: 0 }
    );
    assert_eq!(
        Selection::from_names(&names(&["gz", "", "lzma", "br", "xz"])).unwrap_err(),
        SelectionError::UnknownEncoding { index: 2 }
    );
    assert_eq!(
        Selection::from_names(&names(&["raw", " "])).unwrap_err(),
        SelectionError::UnknownEncoding { index: 1 }
    );
}

#[test]
fn the_implied_mode_follows_the_number_of_encodings() {
    assert_eq!(Selection::All.implied_mode(), Mode::SingleValue);
    assert_eq!(Selection::Listed(vec![Encoding::Gzip]).implied_mode(), Mode::SingleValue);
    assert_eq!(
        Selection::Listed(vec![Encoding::Gzip, Encoding::Gzip]).implied_mode(),
        Mode::SingleValue
    );
    assert_eq!(
        Selection::Listed(vec![Encoding::Gzip, Encoding::Raw]).implied_mode(),
        Mode::Tabular
    );
    assert_eq!(Selection::Listed(vec![]).implied_mode(), Mode::Tabular);
}

#[test]
fn a_request_without_names_selects_all() {
    let config = Config::from_request(None).unwrap();
    assert!(matches!(config.selection, Selection::All));
    assert_eq!(config.mode, Mode::SingleValue);
}

#[test]
fn a_request_with_names_selects_them() {
    let config = Config::from_request(Some(names(&["br", "gz", ""]))).unwrap();
    assert_eq!(listed(config.selection), vec![Encoding::Brotli, Encoding::Gzip]);
    assert_eq!(config.mode, Mode::Tabular);
    let config = Config::from_request(Some(names(&["raw"]))).unwrap();
    assert_eq!(listed(config.selection), vec![Encoding::Raw]);
    assert_eq!(config.mode, Mode::SingleValue);
}

#[test]
fn a_request_with_an_unknown_name_is_rejected() {
    assert_eq!(
        Config::from_request(Some(names(&["br", "deflate"]))).unwrap_err(),
        SelectionError::UnknownEncoding { index: 1 }
    );
}
