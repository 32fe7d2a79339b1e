use parquet2::encoding::hybrid_rle::{encode_bool, encode_u32};
use pqdump::levels::{
    bit_width, bounded_levels, expand_run, levels_of_runs, page_levels, LevelsError, Run,
};
use pqdump::stream::stream_is_safe;
use pqdump::render::{column_output, header_line, page_line, LevelsLine};

fn text(path: &[&str], pages: &[Vec<u32>]) -> String {
    let path: Vec<String> = path.iter().map(|s| s.to_string()).collect();
    column_output(&path, &pages.to_vec())
}

#[test]
fn required_column_prints_no_levels() {
    let levels = page_levels(&[], 0, 3).unwrap();
    assert!(levels.is_empty());
    assert_eq!(text(&["id"], &[levels]), "id:\n\n");
}

#[test]
fn optional_column_bitpacked_run() {
    let levels = page_levels(&[3, 0b101], 1, 3).unwrap();
    assert_eq!(levels, vec![1, 0, 1]);
    assert_eq!(text(&["x"], &[levels]), "x:\n  dlvls: 1 0 1 \n");
}

#[test]
fn nested_column_multi_bit_levels() {
    let levels = page_levels(&[3, 74, 2], 2, 5).unwrap();
    assert_eq!(levels, vec![2, 2, 0, 1, 2]);
    assert_eq!(text(&["a", "b"], &[levels]), "a.b:\n  dlvls: 2 2 0 1 2 \n");
}

#[test]
fn two_pages_on_one_line() {
    let first = page_levels(&[16, 1], 1, 8).unwrap();
    let second = page_levels(&[3, 0b10], 1, 2).unwrap();
    assert_eq!(first, vec![1; 8]);
    assert_eq!(second, vec![0, 1]);
    assert_eq!(
        text(&["y"], &[first, second]),
        "y:\n  dlvls: 1 1 1 1 1 1 1 1 0 1 \n"
    );
}

#[test]
fn page_without_levels_between_pages() {
    let pages = vec![vec![], vec![1, 0], vec![], vec![2]];
    assert_eq!(text(&["c"], &pages), "c:\n  dlvls: 1 0 2 \n");
    assert_eq!(text(&["c"], &[vec![], vec![]]), "c:\n\n");
}

#[test]
fn empty_page_is_skipped() {
    let levels = page_levels(&[3, 0xff], 1, 0).unwrap();
    assert!(levels.is_empty());
    assert_eq!(page_line(&levels, false), "");
}

#[test]
fn round_trip_bit_levels() {
    let v: Vec<u32> = vec![1, 0, 0, 1, 1, 1, 0, 1, 0, 0, 1];
    let mut data = vec![];
    encode_bool(&mut data, v.iter().map(|x| *x == 1)).unwrap();
    let levels = page_levels(&data, 1, v.len()).unwrap();
    assert_eq!(levels, v);
    assert_eq!(page_line(&levels, false), "  dlvls: 1 0 0 1 1 1 0 1 0 0 1 ");
}

#[test]
fn round_trip_multi_bit_levels() {
    let v: Vec<u32> = vec![3, 0, 1, 2, 3, 3, 3, 3, 3, 3, 3, 3, 3, 3, 2, 1, 0];
    let mut data = vec![];
    encode_u32(&mut data, v.iter().copied(), 2).unwrap();
    let levels = page_levels(&data, 3, v.len()).unwrap();
    assert_eq!(levels, v);
    assert_eq!(
        page_line(&levels, false),
        "  dlvls: 3 0 1 2 3 3 3 3 3 3 3 3 3 3 2 1 0 "
    );
}

#[test]
fn bitmap_run_of_one_value() {
    let r = expand_run(&Run::Bitmap(vec![0b1111_1111], 1)).unwrap();
    assert_eq!(r, vec![1]);
}

#[test]
fn bitmap_run_of_whole_bytes() {
    let r = expand_run(&Run::Bitmap(vec![0b1000_0001, 0b0000_0010], 16)).unwrap();
    assert_eq!(r, vec![1, 0, 0, 0, 0, 0, 0, 1, 0, 1, 0, 0, 0, 0, 0, 0]);
}

#[test]
fn bitmap_run_ignores_upper_bits_of_last_byte() {
    let r = expand_run(&Run::Bitmap(vec![0, 0b1111_1010], 11)).unwrap();
    assert_eq!(r.len(), 11);
    assert_eq!(&r[8..], &[0, 1, 0]);
}

#[test]
fn repeated_run_and_empty_run() {
    assert_eq!(expand_run(&Run::Repeated(true, 3)).unwrap(), vec![1, 1, 1]);
    assert_eq!(expand_run(&Run::Repeated(false, 2)).unwrap(), vec![0, 0]);
    assert!(expand_run(&Run::Bitmap(vec![], 0)).unwrap().is_empty());
}

#[test]
fn truncated_bitmap_run_is_rejected() {
    assert!(expand_run(&Run::Bitmap(vec![0xff], 9)).is_none());
    let runs = vec![Run::Repeated(true, 1), Run::Bitmap(vec![0xff], 9)];
    assert!(matches!(levels_of_runs(&runs, 10), Err(LevelsError::TruncatedRun)));
}

#[test]
fn runs_concatenate_in_order() {
    let runs = vec![Run::Repeated(true, 2), Run::Bitmap(vec![0b10], 2), Run::Repeated(false, 1)];
    assert_eq!(levels_of_runs(&runs, 5).unwrap(), vec![1, 1, 0, 1, 0]);
    assert!(matches!(levels_of_runs(&runs, 4), Err(LevelsError::CountMismatch)));
}

#[test]
fn missing_levels_are_rejected() {
    assert!(matches!(page_levels(&[], 1, 3), Err(LevelsError::CountMismatch)));
}

#[test]
fn level_above_maximum_is_rejected() {
    assert!(matches!(bounded_levels(vec![1, 3], 2, 2), Err(LevelsError::LevelOutOfRange)));
    assert!(matches!(bounded_levels(vec![1], 2, 2), Err(LevelsError::CountMismatch)));
    assert_eq!(bounded_levels(vec![0, 2], 2, 2).unwrap(), vec![0, 2]);
    // a stream with bit width 2 can hold a 3, which a column with maximum 2 never has
    assert!(matches!(page_levels(&[3, 0b11], 2, 1), Err(LevelsError::LevelOutOfRange)));
}

#[test]
fn bit_widths() {
    assert_eq!(bit_width(0), 0);
    assert_eq!(bit_width(1), 1);
    assert_eq!(bit_width(2), 2);
    assert_eq!(bit_width(3), 2);
    assert_eq!(bit_width(4), 3);
    assert_eq!(bit_width(255), 8);
    assert_eq!(bit_width(256), 9);
    assert_eq!(bit_width(u16::MAX), 16);
}

#[test]
fn header_joins_segments() {
    let path: Vec<String> = vec!["a".to_string(), "b".to_string(), "c".to_string()];
    assert_eq!(header_line(&path), "a.b.c:\n");
    assert_eq!(header_line(&vec!["id".to_string()]), "id:\n");
}

#[test]
fn decimal_levels() {
    assert_eq!(page_line(&vec![0, 10, 1234, u32::MAX], false), "  dlvls: 0 10 1234 4294967295 ");
    assert_eq!(page_line(&vec![7, 0], true), "7 0 ");
}

#[test]
fn output_is_the_same_twice() {
    let data = [3, 74, 2];
    let a = text(&["a", "b"], &[page_levels(&data, 2, 5).unwrap()]);
    let b = text(&["a", "b"], &[page_levels(&data, 2, 5).unwrap()]);
    assert_eq!(a, b);
}

#[test]
fn levels_line_prints_prefix_once() {
    let mut line = LevelsLine::new();
    assert_eq!(line.add_page(&vec![]), "");
    assert!(!line.started);
    assert_eq!(line.add_page(&vec![1, 1]), "  dlvls: 1 1 ");
    assert_eq!(line.add_page(&vec![0]), "0 ");
    assert!(line.started);
}

#[test]
fn overlong_run_header_is_rejected_before_decoding() {
    let mut data = vec![0x80; 9];
    data.push(0x02);
    assert!(!stream_is_safe(&data, 1));
    assert!(matches!(page_levels(&data, 1, 4), Err(LevelsError::MalformedStream)));
    assert!(matches!(page_levels(&data, 2, 4), Err(LevelsError::MalformedStream)));
    // a tenth byte of 1 ends the header, as parquet2 reads it
    let mut ok = vec![0x80; 9];
    ok.push(0x01);
    assert!(stream_is_safe(&ok, 1));
}

#[test]
fn cut_short_repeated_value_is_rejected() {
    assert!(!stream_is_safe(&[0x02, 0x00], 9));
    assert!(stream_is_safe(&[0x02, 0x00, 0x00], 9));
    assert!(matches!(page_levels(&[0x02, 0x00], 256, 1), Err(LevelsError::MalformedStream)));
}

#[test]
fn empty_stream_with_multi_bit_levels_is_rejected() {
    assert!(matches!(page_levels(&[], 2, 3), Err(LevelsError::MalformedStream)));
}

#[test]
fn wide_levels_decode() {
    // one repeated run of three values 300, nine bits wide: two value bytes
    let levels = page_levels(&[6, 44, 1], 300, 3).unwrap();
    assert_eq!(levels, vec![300, 300, 300]);
}

#[test]
fn long_streak_of_empty_runs_is_rejected() {
    let allowed: Vec<u8> = [0u8, 0u8].repeat(1024);
    assert!(stream_is_safe(&allowed, 2));
    let too_many: Vec<u8> = [0u8, 0u8].repeat(1025);
    assert!(!stream_is_safe(&too_many, 2));
    assert!(matches!(page_levels(&too_many, 2, 1), Err(LevelsError::MalformedStream)));
}
