use data_gen::args::{classify_args, run};
use data_gen::error::DataGenError;
use data_gen::text::serialize_values;
use data_gen::time::parse_time;
use data_gen::values::{create_values, MAX_VALUES};

fn strings(items: &[&str]) -> Vec<String> {
    items.iter().map(|s| s.to_string()).collect()
}

fn split_list(text: &str) -> Vec<u32> {
    let inner = text.trim_start_matches('[').trim_end_matches(']');
    if inner.is_empty() {
        return Vec::new();
    }
    inner.split(',').map(|f| f.parse::<u32>().unwrap()).collect()
}

#[test]
fn parse_time_with_colon() {
    assert_eq!(parse_time("9:00"), Ok(540));
    assert_eq!(parse_time("17:30"), Ok(1050));
    assert_eq!(parse_time("23:59"), Ok(1439));
    assert_eq!(parse_time("0:00"), Ok(0));
}

#[test]
fn parse_time_with_dot() {
    assert_eq!(parse_time("9.05"), Ok(545));
    assert_eq!(parse_time("12.45"), Ok(765));
}

#[test]
fn parse_time_hour_only() {
    assert_eq!(parse_time("8"), Ok(480));
    assert_eq!(parse_time("23"), Ok(1380));
    assert_eq!(parse_time(""), Ok(0));
}

#[test]
fn parse_time_leading_zeros_and_extra_separators() {
    assert_eq!(parse_time("09:07"), Ok(547));
    assert_eq!(parse_time("1:2:3"), Ok(83));
    assert_eq!(parse_time("10:"), Ok(600));
}

#[test]
fn parse_time_every_valid_hour_and_minute() {
    for h in 0..24u32 {
        for m in 0..60u32 {
            assert_eq!(parse_time(&format!("{}:{}", h, m)), Ok(h * 60 + m));
            assert_eq!(parse_time(&format!("{}.{:02}", h, m)), Ok(h * 60 + m));
        }
        assert_eq!(parse_time(&format!("{}", h)), Ok(h * 60));
    }
}

#[test]
fn parse_time_hour_out_of_range() {
    assert_eq!(
        parse_time("24:00"),
        Err(DataGenError::HourOutOfRange { param: "24:00".to_string() })
    );
    assert_eq!(
        parse_time("99.99"),
        Err(DataGenError::HourOutOfRange { param: "99.99".to_string() })
    );
    assert_eq!(
        parse_time("123456789012345678901234567890"),
        Err(DataGenError::HourOutOfRange { param: "123456789012345678901234567890".to_string() })
    );
}

#[test]
fn parse_time_minute_out_of_range() {
    assert_eq!(
        parse_time("9:60"),
        Err(DataGenError::MinuteOutOfRange { param: "9:60".to_string() })
    );
    assert_eq!(
        parse_time("0.99999999999999999999"),
        Err(DataGenError::MinuteOutOfRange { param: "0.99999999999999999999".to_string() })
    );
}

#[test]
fn parse_time_invalid_character() {
    assert_eq!(
        parse_time("9h00"),
        Err(DataGenError::InvalidCharacter { character: 'h', param: "9h00".to_string() })
    );
    assert_eq!(
        parse_time(" 9:00"),
        Err(DataGenError::InvalidCharacter { character: ' ', param: " 9:00".to_string() })
    );
    assert_eq!(
        parse_time("99:x"),
        Err(DataGenError::InvalidCharacter { character: 'x', param: "99:x".to_string() })
    );
    assert_eq!(
        parse_time("1-2"),
        Err(DataGenError::InvalidCharacter { character: '-', param: "1-2".to_string() })
    );
    assert_eq!(
        parse_time("٣"),
        Err(DataGenError::InvalidCharacter { character: '٣', param: "٣".to_string() })
    );
}

#[test]
fn create_values_one_time() {
    let v = create_values(vec![9], "out.json").unwrap();
    assert_eq!(v, vec![540, 1980, 3420, 4860, 6300, 7740, 9180]);
}

#[test]
fn create_values_day_major_order() {
    let input = vec![0, 1, 2];
    let v = create_values(input.clone(), "out.json").unwrap();
    assert_eq!(v.len(), 21);
    for day in 0..7u32 {
        for (j, x) in input.iter().enumerate() {
            assert_eq!(v[day as usize * 3 + j], day * 1440 + 60 * x);
        }
    }
    assert_eq!(&v[0..6], &[0, 60, 120, 1440, 1500, 1560]);
}

#[test]
fn create_values_keeps_duplicates() {
    let v = create_values(vec![5, 5], "out.json").unwrap();
    assert_eq!(v, vec![300, 300, 1740, 1740, 3180, 3180, 4620, 4620, 6060, 6060, 7500, 7500, 8940, 8940]);
}

#[test]
fn create_values_largest_value() {
    let v = create_values(vec![1439], "out.json").unwrap();
    assert_eq!(v[6], 6 * 1440 + 60 * 1439);
}

#[test]
fn create_values_empty_input() {
    assert_eq!(create_values(Vec::new(), "out.json"), Ok(Vec::new()));
}

#[test]
fn create_values_at_cap() {
    let v = create_values(vec![0; 8], "out.json").unwrap();
    assert_eq!(v.len(), MAX_VALUES as usize);
}

#[test]
fn create_values_over_cap() {
    assert_eq!(
        create_values(vec![0; 9], "out.json"),
        Err(DataGenError::TooManyValues { count: 57, max: 56, file_name: "out.json".to_string() })
    );
    assert_eq!(
        create_values(vec![1; 100], "x"),
        Err(DataGenError::TooManyValues { count: 57, max: 56, file_name: "x".to_string() })
    );
}

#[test]
fn serialize_values_format() {
    assert_eq!(serialize_values(&vec![540, 1980, 3420]), "[540,1980,3420]");
    assert_eq!(serialize_values(&vec![0]), "[0]");
    assert_eq!(serialize_values(&vec![]), "[]");
    assert_eq!(serialize_values(&vec![4294967295, 10, 7]), "[4294967295,10,7]");
}

#[test]
fn serialize_values_round_trip() {
    let values = vec![3, 67, 0, 10, 94980, 100000];
    assert_eq!(split_list(&serialize_values(&values)), values);
    let offsets = create_values(vec![540, 1050], "out.json").unwrap();
    assert_eq!(split_list(&serialize_values(&offsets)), offsets);
}

#[test]
fn classify_args_last_file_wins() {
    let inv = classify_args(&strings(&["file:a.json", "9:00", "file:b.json", "10"])).unwrap();
    assert_eq!(inv.file_name, "b.json");
    assert_eq!(inv.times, strings(&["9:00", "10"]));
}

#[test]
fn classify_args_missing_file() {
    assert_eq!(classify_args(&strings(&["9:00"])).err(), Some(DataGenError::MissingOutputFile));
    assert_eq!(classify_args(&strings(&["file:", "9:00"])).err(), Some(DataGenError::MissingOutputFile));
    assert_eq!(classify_args(&strings(&["fil:x", "9:00"])).err(), Some(DataGenError::MissingOutputFile));
}

#[test]
fn classify_args_no_times() {
    assert_eq!(classify_args(&strings(&["file:out.json"])).err(), Some(DataGenError::NoTimesSpecified));
}

#[test]
fn run_single_time() {
    let g = run(&strings(&["file:out.json", "9:00"])).unwrap();
    assert_eq!(g.file_name, "out.json");
    assert_eq!(g.times, vec![540]);
    assert_eq!(g.values, vec![540 * 60, 1440 + 540 * 60, 2880 + 540 * 60, 4320 + 540 * 60, 5760 + 540 * 60, 7200 + 540 * 60, 8640 + 540 * 60]);
    assert_eq!(g.text, "[32400,33840,35280,36720,38160,39600,41040]");
}

#[test]
fn run_eight_times_at_boundary() {
    let args = strings(&["file:out.json", "9:00", "17:30", "0:00", "1.15", "2", "3:45", "12:00", "23:59"]);
    let g = run(&args).unwrap();
    assert_eq!(g.times, vec![540, 1050, 0, 75, 120, 225, 720, 1439]);
    assert_eq!(g.values.len(), 56);
    assert_eq!(split_list(&g.text), g.values);
}

#[test]
fn run_too_many_times() {
    let args = strings(&["file:out.json", "9:00", "17:30", "0:00", "1.15", "2", "3:45", "12:00", "23:59", "6"]);
    assert_eq!(
        run(&args).err(),
        Some(DataGenError::TooManyValues { count: 57, max: 56, file_name: "out.json".to_string() })
    );
}

#[test]
fn run_missing_output_file() {
    assert_eq!(run(&strings(&["9:00"])).err(), Some(DataGenError::MissingOutputFile));
}

#[test]
fn run_hour_out_of_range() {
    assert_eq!(
        run(&strings(&["file:out.json", "24:00"])).err(),
        Some(DataGenError::HourOutOfRange { param: "24:00".to_string() })
    );
}

#[test]
fn run_first_bad_time_reported() {
    assert_eq!(
        run(&strings(&["file:out.json", "9:00", "9:75", "x"])).err(),
        Some(DataGenError::MinuteOutOfRange { param: "9:75".to_string() })
    );
}

#[test]
fn run_no_times() {
    assert_eq!(run(&strings(&["file:out.json"])).err(), Some(DataGenError::NoTimesSpecified));
}
