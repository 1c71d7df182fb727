use cargo_chrono::data::decode_measurements;
use cargo_chrono::data::encode_measurement;
use cargo_chrono::data::load_measurements;
use cargo_chrono::data::measurement_of_record;
use cargo_chrono::data::record_of;
use cargo_chrono::data::LoadError;
use cargo_chrono::data::Measurement;

fn m(commit: &str, test: &str, time: u64, variance: u64) -> Measurement {
    Measurement::new(commit.to_string(), test.to_string(), time, variance)
}

fn row(fields: &[&str]) -> Vec<String> {
    fields.iter().map(|f| f.to_string()).collect()
}

fn store_of(measurements: &[Measurement]) -> String {
    let mut text = String::new();
    for one in measurements {
        text.push_str(&encode_measurement(one).unwrap());
    }
    text
}

#[test]
fn new_keeps_the_four_fields() {
    let one = Measurement::new("abc".to_string(), "t".to_string(), 5, 6);
    assert_eq!(one.commit, "abc");
    assert_eq!(one.test, "t");
    assert_eq!(one.time, 5);
    assert_eq!(one.variance, 6);
    assert_eq!(one.clone(), one);
}

#[test]
fn record_of_writes_the_numbers_as_numerals() {
    assert_eq!(record_of(&m("abc", "t::x", 1234, 0)), row(&["abc", "t::x", "1234", "0"]));
}

#[test]
fn measurement_of_record_reads_four_fields() {
    assert_eq!(measurement_of_record(&row(&["abc", "t", "12", "3"])), Some(m("abc", "t", 12, 3)));
    assert_eq!(measurement_of_record(&row(&["", "", "0", "0"])), Some(m("", "", 0, 0)));
}

#[test]
fn measurement_of_record_rejects_other_rows() {
    assert_eq!(measurement_of_record(&row(&["abc", "t", "12"])), None);
    assert_eq!(measurement_of_record(&row(&["abc", "t", "12", "3", "4"])), None);
    assert_eq!(measurement_of_record(&row(&["abc", "t", "x", "3"])), None);
    assert_eq!(measurement_of_record(&row(&["abc", "t", "12", ""])), None);
    assert_eq!(measurement_of_record(&row(&["abc", "t", "-1", "3"])), None);
    assert_eq!(measurement_of_record(&row(&["abc", "t", "18446744073709551616", "3"])), None);
    assert_eq!(measurement_of_record(&row(&[])), None);
}

#[test]
fn a_record_reads_back_as_its_measurement() {
    for one in [m("abc", "t", 1, 2), m("", "", 0, 0), m("x,y", "a\"b", u64::MAX, u64::MAX)] {
        assert_eq!(measurement_of_record(&record_of(&one)), Some(one));
    }
}

#[test]
fn encode_measurement_writes_one_terminated_row() {
    assert_eq!(encode_measurement(&m("abc1234", "foo::bar", 1234, 56)).unwrap(), "abc1234,foo::bar,1234,56\n");
}

#[test]
fn encode_measurement_quotes_where_the_format_asks_for_it() {
    assert_eq!(encode_measurement(&m("a,b", "t", 1, 2)).unwrap(), "\"a,b\",t,1,2\n");
}

#[test]
fn appended_measurements_load_in_append_order() {
    let all = vec![
        m("v1", "a", 10, 1),
        m("v1", "a", 12, 2),
        m("v2", "b::c", 0, 0),
        m("v1", "a", 10, 1),
        m("v3", "with,comma", u64::MAX, 7),
        m("v4", "with \"quotes\"", 5, 5),
        m("v5", "two\nlines", 6, 6),
    ];
    assert_eq!(load_measurements(&store_of(&all)), Ok(all));
}

#[test]
fn each_append_keeps_what_was_there() {
    let mut all: Vec<Measurement> = Vec::new();
    let mut text = String::new();
    for n in 0..20u64 {
        let one = m("c", "t", n, n * 2);
        text.push_str(&encode_measurement(&one).unwrap());
        all.push(one);
        assert_eq!(load_measurements(&text), Ok(all.clone()));
    }
}

#[test]
fn the_first_row_is_data() {
    assert_eq!(load_measurements("abc,t,1,2\n"), Ok(vec![m("abc", "t", 1, 2)]));
}

#[test]
fn an_empty_store_holds_nothing() {
    assert_eq!(load_measurements(""), Ok(vec![]));
}

#[test]
fn a_row_that_states_no_measurement_fails_the_load() {
    assert_eq!(load_measurements("abc,t,1,2\nabc,t,x,2\nabc,t,3,4\n"), Err(LoadError::Row { index: 1 }));
    assert_eq!(load_measurements("abc,t,1\n"), Err(LoadError::Row { index: 0 }));
    assert_eq!(load_measurements("commit,test,time,variance\nabc,t,1,2\n"), Err(LoadError::Row { index: 0 }));
}

#[test]
fn rows_of_unequal_length_fail_the_load() {
    assert_eq!(load_measurements("abc,t,1,2\nabc,t,1\n"), Err(LoadError::Table));
}

#[test]
fn decode_measurements_reports_the_first_bad_row() {
    let rows = vec![row(&["a", "t", "1", "2"]), row(&["a", "t", "", "2"]), row(&["a"])];
    assert_eq!(decode_measurements(&rows), Err(LoadError::Row { index: 1 }));
    assert_eq!(decode_measurements(&vec![]), Ok(vec![]));
    let good = vec![row(&["a", "t", "1", "2"]), row(&["b", "u", "3", "4"])];
    assert_eq!(decode_measurements(&good), Ok(vec![m("a", "t", 1, 2), m("b", "u", 3, 4)]));
}
