use logutil::file_reader::{FileReader, StartPlan, TailPlan, last_lines_start, start_plan, tail_plan};
use logutil::text::{parse_u64, u64_to_string};
use std::path::PathBuf;

#[test]
fn where_reading_starts() {
    assert_eq!(start_plan(-1), StartPlan::AllLines);
    assert_eq!(start_plan(0), StartPlan::AtEnd);
    assert_eq!(start_plan(25), StartPlan::LastLines(25));
    assert_eq!(start_plan(-7), StartPlan::Nothing);
    assert_eq!(tail_plan(5, Some(40)), TailPlan::ResumeAfter(40));
    assert_eq!(tail_plan(5, None), TailPlan::LastLines(5));
    assert_eq!(tail_plan(-1, None), TailPlan::AllLines);
    assert_eq!(tail_plan(0, None), TailPlan::AtEnd);
    assert_eq!(tail_plan(-3, None), TailPlan::AtEnd);
    assert_eq!(last_lines_start(100, 10), 90);
    assert_eq!(last_lines_start(4, 10), 0);
}

#[test]
fn new_lines_are_taken_once() {
    let mut r = FileReader::new(PathBuf::from("a.log"), "^(.*)$".to_string(), "%d".to_string());
    r.set_last_processed_line(10);
    assert_eq!(r.take_new_lines(8), None);
    assert_eq!(r.last_processed_line(), 10);
    assert_eq!(r.take_new_lines(15), Some((10, 15)));
    assert_eq!(r.last_processed_line(), 15);
    assert_eq!(r.take_new_lines(15), None);
}

#[test]
fn numbers_read_back_as_written() {
    for n in [0u64, 7, 10, 99, 12345, u64::MAX] {
        let text: Vec<char> = u64_to_string(n).chars().collect();
        assert_eq!(parse_u64(&text), Some(n));
    }
}
