use parquet2::encoding::Encoding;
use parquet2::metadata::Descriptor;
use parquet2::page::{DataPage, DataPageHeader, DataPageHeaderV1};
use parquet2::schema::types::{PhysicalType, PrimitiveType};
use pqdump::levels::LevelsError;
use pqdump::page::{buffer_levels, data_page_levels, PageLayout};

fn page(buffer: Vec<u8>, num_values: i32, max_def_level: i16, max_rep_level: i16) -> DataPage {
    let header = DataPageHeaderV1 {
        num_values,
        encoding: Encoding::Plain.into(),
        definition_level_encoding: Encoding::Rle.into(),
        repetition_level_encoding: Encoding::Rle.into(),
        statistics: None,
    };
    let descriptor = Descriptor {
        primitive_type: PrimitiveType::from_physical("a".to_string(), PhysicalType::Int32),
        max_def_level,
        max_rep_level,
    };
    DataPage::new(DataPageHeader::V1(header), buffer, descriptor, None)
}

fn with_length(bytes: &[u8]) -> Vec<u8> {
    let mut out = (bytes.len() as u32).to_le_bytes().to_vec();
    out.extend_from_slice(bytes);
    out
}

#[test]
fn repetition_levels_are_skipped() {
    // repetition levels: one bit-packed run of eight ones; definition levels
    // [2, 2, 0, 1, 2] at two bits each
    let mut buffer = with_length(&[3, 0xff]);
    buffer.extend(with_length(&[3, 74, 2]));
    buffer.extend([9, 9, 9]);
    let p = data_page_levels(&page(buffer, 5, 2, 1)).1.unwrap();
    assert_eq!(p.num_values, 5);
    assert_eq!(p.max_def, 2);
    assert_eq!(p.levels, vec![2, 2, 0, 1, 2]);
}

#[test]
fn optional_page_levels() {
    let mut buffer = with_length(&[3, 0b101]);
    buffer.extend([7, 0, 0, 0, 9, 0, 0, 0]);
    let p = data_page_levels(&page(buffer, 3, 1, 0)).1.unwrap();
    assert_eq!(p.levels, vec![1, 0, 1]);
}

#[test]
fn required_page_has_no_levels() {
    let (layout, p) = data_page_levels(&page(vec![1, 0, 0, 0, 2, 0, 0, 0], 2, 0, 0));
    assert_eq!(layout.num_values, 2);
    let p = p.unwrap();
    assert_eq!(p.num_values, 2);
    assert!(p.levels.is_empty());
}

#[test]
fn page_with_a_level_stream_longer_than_the_page_is_rejected() {
    let buffer = vec![100, 0, 0, 0, 3];
    assert!(data_page_levels(&page(buffer, 1, 1, 0)).1.is_err());
}

fn v2_layout(num_values: usize, rep: i32, def: i32) -> PageLayout {
    PageLayout { num_values, max_def: 1, max_rep: 1, v2_lengths: Some((rep, def)) }
}

#[test]
fn second_version_levels_are_sliced_by_header_lengths() {
    let buffer = vec![3, 0xff, 3, 0b101, 9, 9];
    assert_eq!(buffer_levels(&buffer, &v2_layout(3, 2, 2)).unwrap(), vec![1, 0, 1]);
}

#[test]
fn second_version_lengths_beyond_the_page_are_rejected() {
    let buffer = vec![3, 0xff, 3, 0b101];
    assert!(matches!(
        buffer_levels(&buffer, &v2_layout(3, 2, 3)),
        Err(LevelsError::LevelLengthsOutOfBounds)
    ));
    assert!(matches!(
        buffer_levels(&buffer, &v2_layout(3, -1, 2)),
        Err(LevelsError::LevelLengthsOutOfBounds)
    ));
}

#[test]
fn page_without_values_is_not_read() {
    let layout = PageLayout { num_values: 0, max_def: 1, max_rep: 0, v2_lengths: Some((50, 50)) };
    assert!(buffer_levels(&[], &layout).unwrap().is_empty());
}
