//! File bookkeeping helpers: ordering by modification time, the expected
//! record count, and generated file names.

use fcs_flim::calculate_intensity_entries_num;
use fcs_flim::filter_files_by_prefix;
use fcs_flim::create_flim_file;
use fcs_flim::record_file_name;
use fcs_flim::sort_files_by_modified_time;
use fcs_flim::FileStamp;

fn stamp(name: &str, modified: u64) -> FileStamp {
    FileStamp { name: name.as_bytes().to_vec(), modified }
}

#[test]
fn sorts_most_recently_modified_first() {
    let files = vec![stamp("a", 5), stamp("b", 11), stamp("c", 2), stamp("d", 11)];
    let sorted = sort_files_by_modified_time(files);
    let times: Vec<u64> = sorted.iter().map(|f| f.modified).collect();
    assert_eq!(times, vec![11, 11, 5, 2]);
    let mut names: Vec<Vec<u8>> = sorted.into_iter().map(|f| f.name).collect();
    names.sort();
    assert_eq!(names, vec![b"a".to_vec(), b"b".to_vec(), b"c".to_vec(), b"d".to_vec()]);
}

#[test]
fn expected_entries_from_acquisition_parameters() {
    // 400000 ms of acquisition in 100 us bins.
    assert_eq!(calculate_intensity_entries_num(400000, 100), 4_000_000);
    assert_eq!(calculate_intensity_entries_num(1, 3), 333);
}

#[test]
fn flim_file_name_layout() {
    let name = create_flim_file(
        &b"fcs".to_vec(),
        &b"2024-01-02_03-04-05".to_vec(),
        &b"bin".to_vec(),
    );
    assert_eq!(name, b"fcs_2024-01-02_03-04-05.bin".to_vec());
}

#[test]
fn record_file_name_embeds_a_uuid() {
    let name = record_file_name(&b"2024-01-02_03-04-05".to_vec());
    let s = String::from_utf8(name).unwrap();
    assert!(s.starts_with("fcs_calc_"));
    assert!(s.ends_with("_2024-01-02_03-04-05.json"));
    let uuid_part = &s["fcs_calc_".len().."fcs_calc_".len() + 36];
    let bytes: Vec<char> = uuid_part.chars().collect();
    for (i, c) in bytes.iter().enumerate() {
        if i == 8 || i == 13 || i == 18 || i == 23 {
            assert_eq!(*c, '-');
        } else {
            assert!(c.is_ascii_hexdigit() && !c.is_ascii_uppercase());
        }
    }
    // Two draws almost surely differ: the name is not a fixed string.
    let other = record_file_name(&b"2024-01-02_03-04-05".to_vec());
    let s2 = String::from_utf8(other).unwrap();
    assert_ne!(s, s2);
}

#[test]
fn prefix_filter_keeps_matching_files_in_order() {
    let files = vec![
        stamp("fcs_calc_a", 1),
        stamp("intensity-tracing-b", 2),
        stamp("fcs_calc_c", 3),
        stamp("fcs", 4),
    ];
    let kept = filter_files_by_prefix(files, &b"fcs_calc".to_vec());
    let names: Vec<Vec<u8>> = kept.into_iter().map(|f| f.name).collect();
    assert_eq!(names, vec![b"fcs_calc_a".to_vec(), b"fcs_calc_c".to_vec()]);
}
