use image_scraper::store::lengths::{check_prefix_part_lengths, LengthsError, PrefixPartLengths};

fn parsed(text: &str) -> Result<Vec<usize>, String> {
    PrefixPartLengths::from_str(text).map(|lengths| lengths.0)
}

#[test]
fn lengths_are_numbers_between_slashes() {
    assert_eq!(parsed("2/2"), Ok(vec![2, 2]));
    assert_eq!(parsed("2"), Ok(vec![2]));
    assert_eq!(parsed("16/3"), Ok(vec![16, 3]));
    assert_eq!(parsed("1/2/3/4"), Ok(vec![1, 2, 3, 4]));
    assert_eq!(parsed("0"), Ok(vec![0]));
    assert_eq!(parsed("007/+8"), Ok(vec![7, 8]));
    assert_eq!(parsed(&usize::MAX.to_string()), Ok(vec![usize::MAX]));
    assert_eq!(parsed(&format!("000{}/1", usize::MAX)), Ok(vec![usize::MAX, 1]));
}

#[test]
fn text_that_spells_no_lengths_comes_back() {
    for text in [
        "", "/", "2/", "/2", "2//2", "a", "2/a", "-1", "+", "++1", "1+", " 1", "1 ", "1.5", "2,2",
        "٣", "18446744073709551616", "99999999999999999999999999", "2/18446744073709551616",
    ] {
        assert_eq!(parsed(text), Err(text.to_string()));
        let expected = text
            .split('/')
            .map(str::parse::<usize>)
            .collect::<Result<Vec<_>, _>>();
        assert!(expected.is_err());
    }
}

#[test]
fn lengths_are_read_as_the_standard_library_reads_them() {
    for text in ["2/2", "0", "007/+8", "32", "1/1/1/1/1/1/1/1", "+0"] {
        let expected = text
            .split('/')
            .map(str::parse::<usize>)
            .collect::<Result<Vec<usize>, _>>()
            .unwrap();
        assert_eq!(parsed(text), Ok(expected));
    }
}

#[test]
fn given_lengths_must_agree_with_those_that_the_store_shows() {
    assert_eq!(check_prefix_part_lengths(Some(vec![2, 2]), Some(vec![2, 2])).unwrap(), vec![2, 2]);
    assert_eq!(check_prefix_part_lengths(Some(vec![2, 2]), None).unwrap(), vec![2, 2]);
    assert_eq!(check_prefix_part_lengths(None, Some(vec![3])).unwrap(), vec![3]);
    assert_eq!(check_prefix_part_lengths(Some(vec![]), Some(vec![])).unwrap(), vec![]);
    match check_prefix_part_lengths(Some(vec![2, 2]), Some(vec![2])) {
        Err(LengthsError::PrefixPartLengthsMismatch { inferred, provided }) => {
            assert_eq!(inferred, vec![2, 2]);
            assert_eq!(provided, vec![2]);
        }
        other => panic!("{other:?}"),
    }
    match check_prefix_part_lengths(Some(vec![2, 2]), Some(vec![2, 3])) {
        Err(LengthsError::PrefixPartLengthsMismatch { inferred, provided }) => {
            assert_eq!(inferred, vec![2, 2]);
            assert_eq!(provided, vec![2, 3]);
        }
        other => panic!("{other:?}"),
    }
    assert!(matches!(
        check_prefix_part_lengths(None, None),
        Err(LengthsError::MissingPrefixPartLengths)
    ));
}
