use loading_volume::error::CommandError;
use loading_volume::history::AppState;
use loading_volume::parse::{parse_imagej_line, parse_text, read_clipboard};
use loading_volume::record::{statistics, Record};
use loading_volume::sample::{round_div, InputData};

fn sample(key: &str, value: i64, volume: u8) -> InputData {
    let mut d = InputData::new(key.to_string(), value);
    d.volume = volume;
    d
}

fn named(id: i64, name: &str) -> Record {
    let mut r = Record::with_id(id);
    r.set_name(name.to_string());
    r
}

#[test]
fn parse_line_two_words() {
    let d = parse_imagej_line("A 10").unwrap();
    assert_eq!(d.key, "A");
    assert_eq!(d.name, "A");
    assert_eq!(d.value, 10_000_000);
    assert_eq!(d.volume, 0);
    assert_eq!(d.modified_volume, None);
}

#[test]
fn parse_line_decimal_forms() {
    assert_eq!(parse_imagej_line("k -3.25").unwrap().value, -3_250_000);
    assert_eq!(parse_imagej_line("k .5").unwrap().value, 500_000);
    assert_eq!(parse_imagej_line("k +7.").unwrap().value, 7_000_000);
    assert_eq!(parse_imagej_line("k 1.1234567").unwrap().value, 1_123_456);
    assert_eq!(parse_imagej_line("  k\t42  ").unwrap().value, 42_000_000);
    assert_eq!(parse_imagej_line("k 9223372036854.775807").unwrap().value, i64::MAX);
}

#[test]
fn parse_line_rejects() {
    assert!(parse_imagej_line("").is_none());
    assert!(parse_imagej_line("A").is_none());
    assert!(parse_imagej_line("A 1 2").is_none());
    assert!(parse_imagej_line("A x").is_none());
    assert!(parse_imagej_line("A .").is_none());
    assert!(parse_imagej_line("A 1.2.3").is_none());
    assert!(parse_imagej_line("A 9223372036855").is_none());
}

#[test]
fn parse_text_example() {
    let samples = parse_text("A 10\nB 20\nbad_line\nC 30");
    assert_eq!(samples.len(), 3);
    assert_eq!(samples[0].key, "A");
    assert_eq!(samples[0].value, 10_000_000);
    assert_eq!(samples[1].key, "B");
    assert_eq!(samples[1].value, 20_000_000);
    assert_eq!(samples[2].key, "C");
    assert_eq!(samples[2].value, 30_000_000);

    let mut r = Record::with_id(0);
    r.set_inputs(samples);
    r.modified_input_volumn();
    assert_eq!(r.min_value, Some(10));
    assert_eq!(r.max_value, Some(30));
    assert_eq!(r.target_value, Some(20));
    assert!(r.inputs.iter().all(|d| d.modified_volume.is_none()));
}

#[test]
fn parse_text_crlf_lines() {
    let samples = parse_text("A 1\r\n\r\nB 2\r\n");
    assert_eq!(samples.len(), 2);
    assert_eq!(samples[1].key, "B");
}

#[test]
fn clipboard_without_data() {
    assert_eq!(read_clipboard("bad\nno numbers here"), Err(CommandError::NoValidData));
    assert_eq!(read_clipboard(""), Err(CommandError::NoValidData));
    assert_eq!(read_clipboard("x 1").unwrap().len(), 1);
}

#[test]
fn rounding_halves_up() {
    assert_eq!(round_div(15, 10), 2);
    assert_eq!(round_div(14, 10), 1);
    assert_eq!(round_div(-15, 10), 0);
    assert_eq!(round_div(i128::MAX, 1), u64::MAX);
}

#[test]
fn statistics_rounds_min_max_mean() {
    let inputs = vec![sample("a", 1_500_000, 0), sample("b", 2_500_000, 0), sample("c", 2_400_000, 0)];
    // mean 2.1333...
    assert_eq!(statistics(&inputs), Some((2, 3, 2)));
    assert_eq!(statistics(&Vec::new()), None);
    let negative = vec![sample("a", -4_000_000, 0), sample("b", 1_000_000, 0)];
    assert_eq!(statistics(&negative), Some((0, 1, 0)));
}

#[test]
fn empty_inputs_leave_statistics_absent() {
    let mut r = Record::with_id(5);
    r.set_inputs(vec![sample("a", 1_000_000, 0)]);
    r.set_inputs(Vec::new());
    assert_eq!(r.min_value, None);
    assert_eq!(r.max_value, None);
    assert_eq!(r.target_value, None);
}

#[test]
fn modified_volume_formula() {
    let mut d = sample("a", 50_000_000, 5);
    assert_eq!(d.value_per_volumn(), Some(10));
    d.calc_modified_volumn(100);
    assert_eq!(d.modified_volume, Some(10));
    let mut e = sample("b", 70_000_000, 3);
    e.calc_modified_volumn(100);
    assert_eq!(e.modified_volume, Some(4));
}

#[test]
fn modified_volume_absent_without_volume() {
    let mut d = sample("a", 50_000_000, 0);
    d.calc_modified_volumn(100);
    assert_eq!(d.modified_volume, None);
    let mut tiny = sample("t", 1_000_000, 5);
    tiny.calc_modified_volumn(100);
    assert_eq!(tiny.modified_volume, None);
}

#[test]
fn recompute_needs_a_target() {
    let mut r = Record::with_id(1);
    r.inputs = vec![sample("a", 50_000_000, 5)];
    r.modified_input_volumn();
    assert_eq!(r.inputs[0].modified_volume, None);
    r.set_target(100);
    assert_eq!(r.inputs[0].modified_volume, None);
    r.modified_input_volumn();
    assert_eq!(r.inputs[0].modified_volume, Some(10));
    assert_eq!(r.min_value, None);
}

#[test]
fn display_name_prefers_own_name() {
    let r = named(0, "gel 1");
    assert_eq!(r.get_display_name(), "gel 1");
    let unnamed = Record::with_id(0);
    assert_eq!(unnamed.get_display_name().len(), 19);
    assert_eq!(unnamed.display_name_from(Some("stamp".to_string())), "stamp");
    assert_eq!(unnamed.display_name_from(None), "");
}

#[test]
fn add_record_goes_first_and_is_selected() {
    let mut s = AppState::load_from_store(None);
    assert_eq!(s.current_index, None);
    s.add_record(named(1, "one"));
    s.add_record(named(2, "two"));
    s.set_index(1);
    s.add_record(named(3, "three"));
    assert_eq!(s.current_index, Some(0));
    assert_eq!(s.record_history.len(), 3);
    assert_eq!(s.record_history[0].id, 3);
    assert_eq!(s.history_list(), vec!["three", "two", "one"]);
}

#[test]
fn create_record_starts_empty_session() {
    let mut s = AppState::load_from_store(Some(vec![named(1, "one")]));
    s.create_record();
    assert_eq!(s.record_history.len(), 2);
    assert_eq!(s.current_index, Some(0));
    assert!(s.record_history[0].inputs.is_empty());
    assert_eq!(s.record_history[1].id, 1);
}

#[test]
fn delete_out_of_range_changes_nothing() {
    let mut empty = AppState::load_from_store(None);
    assert!(!empty.delete_history(0));
    assert!(empty.record_history.is_empty());
    assert_eq!(empty.current_index, None);
    let mut s = AppState::load_from_store(Some(vec![named(2, "b"), named(1, "a")]));
    assert!(!s.delete_history(2));
    assert_eq!(s.record_history.len(), 2);
    assert_eq!(s.current_index, Some(0));
}

#[test]
fn delete_selected_moves_selection_back() {
    let mut s = AppState::load_from_store(Some(vec![named(3, "c"), named(2, "b"), named(1, "a")]));
    s.set_index(2);
    assert!(s.delete_history(2));
    assert_eq!(s.current_index, Some(1));
    s.set_index(0);
    assert!(s.delete_history(0));
    assert_eq!(s.current_index, Some(0));
    assert_eq!(s.record_history.len(), 1);
    assert_eq!(s.record_history[0].id, 2);
}

#[test]
fn delete_after_selection_keeps_it() {
    let mut s = AppState::load_from_store(Some(vec![named(3, "c"), named(2, "b"), named(1, "a")]));
    assert!(s.delete_history(1));
    assert_eq!(s.current_index, Some(0));
    assert_eq!(s.history_list(), vec!["c", "a"]);
}

#[test]
fn rename_in_and_out_of_range() {
    let mut s = AppState::load_from_store(Some(vec![named(1, "a")]));
    assert!(s.rename_record(0, "x".to_string()));
    assert_eq!(s.history_list(), vec!["x"]);
    assert!(!s.rename_record(1, "y".to_string()));
    assert_eq!(s.rename_history(0, "z".to_string()), Ok(()));
    assert_eq!(s.rename_history(4, "w".to_string()), Err(CommandError::InvalidIndex(4)));
    assert_eq!(s.history_list(), vec!["z"]);
}

#[test]
fn clear_empties_history() {
    let mut s = AppState::load_from_store(Some(vec![named(1, "a")]));
    s.clear_history();
    assert!(s.record_history.is_empty());
    assert_eq!(s.current_index, None);
    assert!(s.history_list().is_empty());
}

#[test]
fn unchecked_selection_selects_nothing() {
    let mut s = AppState::load_from_store(Some(vec![named(1, "a")]));
    s.set_index(5);
    assert_eq!(s.current_index, Some(5));
    assert!(s.current_record().is_none());
    assert!(!s.update_loading_volumn(10));
    assert!(!s.calc_loading_volumn(vec![sample("a", 1_000_000, 1)]));
    s.set_index(0);
    assert_eq!(s.current_record().unwrap().id, 1);
}

#[test]
fn commands_update_selected_record() {
    let mut s = AppState::load_from_store(Some(vec![named(2, "b"), named(1, "a")]));
    s.set_index(1);
    assert!(s.calc_loading_volumn(vec![sample("x", 50_000_000, 5), sample("y", 30_000_000, 0)]));
    let r = s.current_record().unwrap();
    assert_eq!(r.id, 1);
    assert_eq!((r.min_value, r.max_value, r.target_value), (Some(30), Some(50), Some(40)));
    assert_eq!(r.inputs[0].modified_volume, Some(4));
    assert_eq!(r.inputs[1].modified_volume, None);
    assert!(s.update_loading_volumn(100));
    let r = s.current_record().unwrap();
    assert_eq!(r.target_value, Some(100));
    assert_eq!(r.min_value, Some(30));
    assert_eq!(r.inputs[0].modified_volume, Some(10));
    assert!(s.record_history[0].inputs.is_empty());
}

#[test]
fn save_then_load_keeps_records() {
    let mut r = named(7, "seven");
    r.set_inputs(vec![sample("a", 2_000_000, 2)]);
    let mut s = AppState::load_from_store(Some(vec![named(9, "nine"), r]));
    s.set_index(1);
    let saved = s.save_to_store().clone();
    let loaded = AppState::load_from_store(Some(saved));
    assert_eq!(&loaded.record_history, s.save_to_store());
    assert_eq!(loaded.current_index, Some(0));
    let none = AppState::load_from_store(Some(Vec::new()));
    assert_eq!(none.current_index, None);
}

#[test]
fn parse_line_exponent_forms() {
    assert_eq!(parse_imagej_line("A 1e3").unwrap().value, 1_000_000_000);
    assert_eq!(parse_imagej_line("k 2E1").unwrap().value, 20_000_000);
    assert_eq!(parse_imagej_line("k 1.5e-4").unwrap().value, 150);
    assert_eq!(parse_imagej_line("k -2.5E+2").unwrap().value, -250_000_000);
    assert_eq!(parse_imagej_line("k 1e-7").unwrap().value, 0);
    assert_eq!(parse_imagej_line("k .5e1").unwrap().value, 5_000_000);
    assert_eq!(parse_imagej_line("k 0e99999999999999999999999").unwrap().value, 0);
    assert_eq!(parse_imagej_line("k 5e-99999999999999999999999").unwrap().value, 0);
    assert_eq!(
        parse_imagej_line("k 123456789012345678901234567890e-20").unwrap().value,
        1_234_567_890_123_456
    );
    assert_eq!(parse_imagej_line("k 9.223372036854775807e12").unwrap().value, i64::MAX);
}

#[test]
fn parse_line_exponent_rejects() {
    assert!(parse_imagej_line("k 1e").is_none());
    assert!(parse_imagej_line("k 1e+").is_none());
    assert!(parse_imagej_line("k e5").is_none());
    assert!(parse_imagej_line("k 1e5x").is_none());
    assert!(parse_imagej_line("k 1e99999999999999999999999").is_none());
    assert!(parse_imagej_line("k 9.223372036854775808e12").is_none());
    assert!(parse_imagej_line("k 1e19").is_none());
}
