use sounding_wyoming_text_list::bytes::{
    first_byte, first_occurrence, occurs_at, read_line, same_bytes, split_lines, trim,
};
use sounding_wyoming_text_list::calendar::read_time;
use sounding_wyoming_text_list::header::split_entry;
use sounding_wyoming_text_list::indexes::find_kind;
use sounding_wyoming_text_list::number::{float_literal, parse_i32, parse_u32};
use sounding_wyoming_text_list::{
    full_year, has_min_num, index_name, parse_indexes, parse_profile, parse_station_info,
    parse_valid_time, read_column, Error, Number, ValidTime, INDEX_COUNT,
};

fn value(number: Option<Number>) -> Option<f64> {
    number.map(|n| std::str::from_utf8(n.as_bytes()).unwrap().parse::<f64>().unwrap())
}

const SAMPLES: [&str; 60] = [
    "", " ", "0", "7", "007", "3.14", "-3.14", "+3.14", "2.5E10", "2.5e10", "2.5E-10", "2.5e+10",
    "5.", ".5", "+.5", "-.5e3", ".", "+", "-", "+.", "e5", ".e5", "1e", "1e+", "1e-", "1e5.5",
    "1.2.3", "1 ", " 1", "1,0", "1_000", "0x10", "inf", "-inf", "+infinity", "NaN", "nan", "-nan",
    "INF", "Infinity", "iNfInItY", "infinit", "infinityy", "in", "na", "nanx", "1000.0", "-117.63",
    "5365.00", "12345678901234567890123456789", "1e400", "--1", "+-1", "1-", "1+", "\u{a0}1",
    "１", "1.e3", "1.5e", "99999999999",
];

#[test]
fn literal_is_what_a_float_parses_from() {
    for sample in SAMPLES {
        assert_eq!(
            float_literal(sample.as_bytes()),
            sample.parse::<f64>().is_ok(),
            "sample {:?}",
            sample
        );
        assert_eq!(Number::read(sample.as_bytes()).is_some(), sample.parse::<f64>().is_ok());
    }
}

#[test]
fn number_keeps_its_literal() {
    let number = Number::read(b"-117.63").unwrap();
    assert_eq!(number.as_bytes(), b"-117.63");
    assert_eq!(value(Some(number)), Some(-117.63));
    assert!(Number::read(b"-117.63 ").is_none());
}

#[test]
fn integers_read_as_the_standard_library_reads_them() {
    let samples = [
        "", "+", "-", "0", "-0", "+0", "7", "42", "-42", "+42", "007", "2147483647", "2147483648",
        "-2147483648", "-2147483649", "4294967295", "4294967296", "00000000000000000000005",
        "99999999999999999999999", "1.0", "1 ", " 1", "1a", "a", "--1", "+-1", "72786", "1e3",
    ];
    for sample in samples {
        assert_eq!(parse_i32(sample.as_bytes()), sample.parse::<i32>().ok(), "{:?}", sample);
        assert_eq!(parse_u32(sample.as_bytes()), sample.parse::<u32>().ok(), "{:?}", sample);
    }
}

#[test]
fn integer_limits() {
    assert_eq!(parse_i32(b"2147483647"), Some(i32::MAX));
    assert_eq!(parse_i32(b"-2147483648"), Some(i32::MIN));
    assert_eq!(parse_i32(b"2147483648"), None);
    assert_eq!(parse_u32(b"4294967295"), Some(u32::MAX));
    assert_eq!(parse_u32(b"-1"), None);
}

#[test]
fn trim_removes_what_the_standard_library_removes() {
    let samples = [
        "", " ", "   ", "a", " a", "a ", "  a b  ", "\t\r\n a \x0b\x0c", "\u{85}a\u{a0}",
        "\u{1680}a\u{2000}", "\u{2001}\u{200a}a\u{2028}\u{2029}", "\u{202f}a\u{205f}\u{3000}",
        "\u{200b}a\u{200b}", "é a é", " é ", "\u{a0}", "\u{3000}\u{3000}", "a\u{2003}b",
        "\u{feff} a", "  1000.0 ",
    ];
    for sample in samples {
        assert_eq!(trim(sample.as_bytes()), sample.trim().as_bytes(), "{:?}", sample);
    }
}

#[test]
fn trim_takes_any_bytes() {
    assert_eq!(trim(&[0x20, 0xc2, 0x20]), &[0xc2]);
    assert_eq!(trim(&[0xa0, 0x31, 0xc2]), &[0xa0, 0x31, 0xc2]);
    assert_eq!(trim(&[0xc2, 0xa0]), &[] as &[u8]);
}

#[test]
fn lines_are_what_the_standard_library_splits() {
    let samples = [
        "", "a", "a\n", "a\nb", "a\n\nb", "\n", "\n\n", "a\r\nb\r\n", "a\rb", "a\r", "\r\n",
        "\r", "a\r\r\n", "a\n\r", " x \n y ", "one\ntwo\nthree",
    ];
    for sample in samples {
        let expected: Vec<&[u8]> = sample.lines().map(|line| line.as_bytes()).collect();
        assert_eq!(split_lines(sample.as_bytes()), expected, "{:?}", sample);
    }
}

#[test]
fn first_line_from_an_offset() {
    assert_eq!(read_line(b"ab\r\ncd", 0), b"ab");
    assert_eq!(read_line(b"ab\r\ncd", 4), b"cd");
    assert_eq!(read_line(b"ab\r\ncd", 6), b"");
    assert_eq!(read_line(b"ab\r", 0), b"ab\r");
}

#[test]
fn searching() {
    assert!(occurs_at(b"abcabc", 3, b"abc"));
    assert!(!occurs_at(b"abcabc", 4, b"abc"));
    assert!(!occurs_at(b"abc", 1, b"bcd"));
    assert!(occurs_at(b"abc", 3, b""));
    assert_eq!(first_occurrence(b"xxabcabc", 0, b"abc"), 2);
    assert_eq!(first_occurrence(b"xxabcabc", 3, b"abc"), 5);
    assert_eq!(first_occurrence(b"xxabcabc", 6, b"abc"), 8);
    assert_eq!(first_byte(b"a:b:c", 0, b':'), 1);
    assert_eq!(first_byte(b"a:b:c", 2, b':'), 3);
    assert_eq!(first_byte(b"abc", 0, b':'), 3);
    assert!(same_bytes(b"abc", b"abc"));
    assert!(!same_bytes(b"abc", b"abd"));
    assert!(!same_bytes(b"abc", b"ab"));
}

#[test]
fn entry_splits_at_the_first_colon() {
    let (label, text) = split_entry(b"   Station identifier: OTX  ").unwrap();
    assert_eq!(label, b"Station identifier");
    assert_eq!(text, b"OTX");
    let (label, text) = split_entry(b"a: b: c").unwrap();
    assert_eq!(label, b"a");
    assert_eq!(text, b"b: c");
    let (label, text) = split_entry(b":").unwrap();
    assert_eq!(label, b"");
    assert_eq!(text, b"");
    assert!(split_entry(b"no colon here").is_none());
}

#[test]
fn column_of_a_line() {
    let line = b"  921.0    728    1.2    0.9     98   4.44     50      7  280.7  293.1  281.5";
    assert_eq!(value(read_column(line, 0, 7)), Some(921.0));
    assert_eq!(value(read_column(line, 8, 14)), Some(728.0));
    assert_eq!(value(read_column(line, 15, 21)), Some(1.2));
    assert_eq!(value(read_column(line, 22, 28)), Some(0.9));
    assert_eq!(value(read_column(line, 45, 49)), Some(50.0));
    assert_eq!(value(read_column(line, 52, 56)), Some(7.0));
    assert_eq!(value(read_column(line, 65, 70)), Some(293.1));
    assert_eq!(read_column(line, 0, 7).unwrap().as_bytes(), b"921.0");
}

#[test]
fn short_line_gives_no_value() {
    let line = b" 1000.0    117";
    assert_eq!(line.len(), 14);
    assert_eq!(value(read_column(line, 0, 7)), Some(1000.0));
    assert_eq!(value(read_column(line, 8, 14)), Some(117.0));
    assert!(read_column(line, 15, 21).is_none());
    assert!(read_column(line, 65, 70).is_none());
    assert!(read_column(&line[..13], 8, 14).is_none());
    assert!(read_column(b"", 0, 7).is_none());
    assert!(read_column(b"123456", 0, 7).is_none());
    assert_eq!(value(read_column(b"1234567", 0, 7)), Some(1234567.0));
}

#[test]
fn column_that_is_blank_or_no_number_gives_no_value() {
    assert!(read_column(b"       ", 0, 7).is_none());
    assert!(read_column(b"  PRES ", 0, 7).is_none());
    assert!(read_column(b"-------", 0, 7).is_none());
    assert!(read_column(b" 10 0.0", 0, 7).is_none());
    assert!(read_column(b"\xc3\xa9 100.0\xc3", 1, 8).is_none());
}

#[test]
fn year_of_two_digits() {
    assert_eq!(full_year(69), 2069);
    assert_eq!(full_year(70), 1970);
    assert_eq!(full_year(0), 2000);
    assert_eq!(full_year(99), 1999);
    assert_eq!(full_year(18), 2018);
}

#[test]
fn time_exists_on_the_calendar() {
    let time = ValidTime::new(1970, 7, 27, 12).unwrap();
    assert_eq!(time, ValidTime { year: 1970, month: 7, day: 27, hour: 12 });
    assert!(ValidTime::new(2024, 2, 29, 0).is_some());
    assert!(ValidTime::new(2023, 2, 29, 0).is_none());
    assert!(ValidTime::new(1900, 2, 29, 0).is_none());
    assert!(ValidTime::new(2000, 2, 29, 23).is_some());
    assert!(ValidTime::new(2023, 4, 31, 0).is_none());
    assert!(ValidTime::new(2023, 4, 30, 0).is_some());
    assert!(ValidTime::new(2023, 12, 31, 0).is_some());
    assert!(ValidTime::new(2023, 13, 1, 0).is_none());
    assert!(ValidTime::new(2023, 0, 1, 0).is_none());
    assert!(ValidTime::new(2023, 1, 0, 0).is_none());
    assert!(ValidTime::new(2023, 1, 32, 0).is_none());
    assert!(ValidTime::new(2023, 1, 1, 24).is_none());
    assert!(ValidTime::new(262142, 12, 31, 0).is_some());
    assert!(ValidTime::new(262143, 1, 1, 0).is_none());
    assert!(ValidTime::new(-262143, 1, 1, 0).is_some());
    assert!(ValidTime::new(-262144, 12, 31, 0).is_none());
    assert!(ValidTime::new(-4, 2, 29, 0).is_some());
}

#[test]
fn time_token() {
    assert_eq!(
        read_time(b"180109/0000"),
        Some(ValidTime { year: 2018, month: 1, day: 9, hour: 0 })
    );
    assert_eq!(
        read_time(b"700727/1200"),
        Some(ValidTime { year: 1970, month: 7, day: 27, hour: 12 })
    );
    assert_eq!(
        read_time(b"691231x23"),
        Some(ValidTime { year: 2069, month: 12, day: 31, hour: 23 })
    );
    assert_eq!(
        read_time(b"000229/06"),
        Some(ValidTime { year: 2000, month: 2, day: 29, hour: 6 })
    );
    assert_eq!(
        read_time(b"990101/00"),
        Some(ValidTime { year: 1999, month: 1, day: 1, hour: 0 })
    );
    assert!(read_time(b"").is_none());
    assert!(read_time(b"7072712").is_none());
    assert!(read_time(b"180109/0").is_none());
    assert!(read_time(b"181309/00").is_none());
    assert!(read_time(b"180230/00").is_none());
    assert!(read_time(b"180109/24").is_none());
    assert!(read_time(b"1801xx/00").is_none());
    assert!(read_time(b"xx0109/00").is_none());
    assert!(read_time(b"18-109/00").is_none());
}

#[test]
fn time_of_a_section() {
    let text = "   Station number: 72786\n   Observation time: 180109/0000\n   x: 1\n";
    assert_eq!(
        parse_valid_time(text),
        Some(ValidTime { year: 2018, month: 1, day: 9, hour: 0 })
    );
    assert_eq!(
        parse_valid_time("junk Observation time:   700727/1200  \r\nrest"),
        Some(ValidTime { year: 1970, month: 7, day: 27, hour: 12 })
    );
    assert_eq!(parse_valid_time("Observation time: 180109/0000\nObservation time: bad"),
        Some(ValidTime { year: 2018, month: 1, day: 9, hour: 0 }));
    assert!(parse_valid_time("Observation time: bad\nObservation time: 180109/0000").is_none());
    assert!(parse_valid_time("Observation time:").is_none());
    assert!(parse_valid_time("Observation time:\n180109/0000").is_none());
    assert!(parse_valid_time("observation time: 180109/0000").is_none());
    assert!(parse_valid_time("Observation time 180109/0000").is_none());
    assert!(parse_valid_time("").is_none());
}

#[test]
fn station_of_a_section() {
    let text = "\
        Station identifier: OTX\n\
        Station number: 72786\n\
        Observation time: 180109/0000\n\
        Station latitude: 47.68\n\
        Station longitude: -117.63\n\
        Station elevation: 728.0\n\
        Showalter index: 5.30\n";
    let info = parse_station_info(text).unwrap();
    assert_eq!(info.number, Some(72786));
    assert_eq!(info.id, Some(&b"OTX"[..]));
    let (latitude, longitude) = info.location.unwrap();
    assert_eq!(value(Some(latitude)), Some(47.68));
    assert_eq!(value(Some(longitude)), Some(-117.63));
    assert_eq!(value(info.elevation), Some(728.0));
}

#[test]
fn station_with_no_field_is_still_a_station() {
    let info = parse_station_info("nothing of use\nShowalter index: 5.30\n").unwrap();
    assert_eq!(info.number, None);
    assert_eq!(info.id, None);
    assert!(info.location.is_none());
    assert!(info.elevation.is_none());
    assert!(parse_station_info("").is_some());
}

#[test]
fn station_has_a_location_when_both_parts_are_there() {
    let info = parse_station_info("Station latitude: 47.68\n").unwrap();
    assert!(info.location.is_none());
    let info = parse_station_info("Station longitude: -117.63\n").unwrap();
    assert!(info.location.is_none());
    let info = parse_station_info("Station longitude: -117.63\nStation latitude: 47.68").unwrap();
    let (latitude, longitude) = info.location.unwrap();
    assert_eq!(latitude.as_bytes(), b"47.68");
    assert_eq!(longitude.as_bytes(), b"-117.63");
}

#[test]
fn station_is_refused_for_a_number_that_is_none() {
    assert!(parse_station_info("Station number: seven").is_none());
    assert!(parse_station_info("Station number: 72786.0").is_none());
    assert!(parse_station_info("Station number:").is_none());
    assert!(parse_station_info("Station latitude: north").is_none());
    assert!(parse_station_info("Station longitude: ").is_none());
    assert!(parse_station_info("Station elevation: 728 m").is_none());
    assert!(parse_station_info("Station identifier:").is_some());
    assert_eq!(parse_station_info("Station identifier:").unwrap().id, Some(&b""[..]));
}

#[test]
fn station_takes_the_later_line_until_it_is_complete() {
    let info = parse_station_info("Station number: 1\nStation number: 2\n").unwrap();
    assert_eq!(info.number, Some(2));
    let complete = "\
        Station identifier: OTX\n\
        Station number: 72786\n\
        Station latitude: 47.68\n\
        Station longitude: -117.63\n\
        Station elevation: 728.0\n\
        Station number: not read any more\n\
        Station identifier: TFX\n";
    let info = parse_station_info(complete).unwrap();
    assert_eq!(info.number, Some(72786));
    assert_eq!(info.id, Some(&b"OTX"[..]));
}

#[test]
fn index_names() {
    assert_eq!(INDEX_COUNT, 24);
    assert_eq!(index_name(0), "Station latitude");
    assert_eq!(index_name(2), "Showalter index");
    assert_eq!(index_name(9), "Convective Available Potential Energy");
    assert_eq!(index_name(23), "SWEAT index");
    for kind in 0..INDEX_COUNT {
        assert_eq!(find_kind(index_name(kind).as_bytes()), Some(kind));
    }
    assert_eq!(find_kind(b"Station identifier"), None);
    assert_eq!(find_kind(b"showalter index"), None);
    assert_eq!(find_kind(b""), None);
}

#[test]
fn showalter_index() {
    let indexes = parse_indexes("                            Showalter index: 5.3\n");
    assert_eq!(value(indexes.lookup("Showalter index")), Some(5.3));
    assert_eq!(value(indexes.get(2)), Some(5.3));
    for kind in 0..INDEX_COUNT {
        if kind != 2 {
            assert!(indexes.get(kind).is_none());
        }
    }
    assert!(indexes.lookup("No such index").is_none());
}

#[test]
fn index_takes_the_last_line_that_states_it() {
    let text = "\
        K index: 17.70\n\
        Lifted index: 8.08\n\
        K index: 21.5\n\
        K index: none\n\
        Unknown index: 3.0\n\
        Station identifier: OTX\n\
        no colon\n\
        SWEAT index: 108.99";
    let indexes = parse_indexes(text);
    assert_eq!(value(indexes.lookup("K index")), Some(21.5));
    assert_eq!(value(indexes.lookup("Lifted index")), Some(8.08));
    assert_eq!(value(indexes.lookup("SWEAT index")), Some(108.99));
    assert!(indexes.lookup("Unknown index").is_none());
    assert!(indexes.lookup("Showalter index").is_none());
    let empty = parse_indexes("");
    for kind in 0..INDEX_COUNT {
        assert!(empty.get(kind).is_none());
    }
}

#[test]
fn index_of_every_kind() {
    let mut text = String::new();
    for kind in 0..INDEX_COUNT {
        text.push_str(&format!("{:>45}: {}.5\n", index_name(kind), kind));
    }
    let indexes = parse_indexes(&text);
    for kind in 0..INDEX_COUNT {
        assert_eq!(value(indexes.get(kind)), Some(kind as f64 + 0.5));
        assert_eq!(value(indexes.lookup(index_name(kind))), Some(kind as f64 + 0.5));
    }
}

fn row(pressure: &str, height: &str) -> String {
    format!("{:>7}{:>7}\n", pressure, height)
}

#[test]
fn profile_needs_five_pressures_and_five_heights() {
    let five: String = (0..5).map(|i| row(&format!("{}.0", 1000 - i), &format!("{}", 100 + i))).collect();
    let profile = parse_profile(&five).unwrap();
    assert_eq!(profile.len(), 5);
    assert!(has_min_num(profile.pressure()));
    assert!(has_min_num(profile.height()));
    assert!(!has_min_num(profile.temperature()));

    let four: String = (0..4).map(|i| row(&format!("{}.0", 1000 - i), &format!("{}", 100 + i))).collect();
    assert!(parse_profile(&four).is_none());

    let mut few_pressures = four.clone();
    few_pressures.push_str(&row("", "104"));
    few_pressures.push_str(&row("", "105"));
    assert!(parse_profile(&few_pressures).is_none());

    let mut few_heights = five.clone();
    few_heights = few_heights.replace("    104", "       ");
    assert!(parse_profile(&few_heights).is_none());

    assert!(parse_profile("").is_none());
    assert!(parse_profile("a caption\nand nothing else\n").is_none());
}

#[test]
fn profile_has_a_place_for_every_line_of_the_table() {
    let text = "\
-----------------------------------------------------------------------------
   PRES   HGHT   TEMP   DWPT   RELH   MIXR   DRCT   SKNT   THTA   THTE   THTV
    hPa     m      C      C      %    g/kg    deg   knot     K      K      K 
-----------------------------------------------------------------------------
 1000.0    117                                                               
  925.0    753
  921.0    728    1.2    0.9     98   4.44     50      7  280.7  293.1  281.5
  a line that is no level

  850.0   1428    1.8    1.5     98   5.03    205         287.9  302.3  288.8
  700.0   2990   -5.5   -5.9     97   3.58    225     33  296.2  307.1  296.9
  500.0   5510  -21.9  -23.7     85   1.14            52  305.4  309.3  305.6
";
    let profile = parse_profile(text).unwrap();
    assert_eq!(profile.len(), 8);
    assert_eq!(profile.pressure().len(), 8);
    assert_eq!(profile.height().len(), 8);
    assert_eq!(profile.temperature().len(), 8);
    assert_eq!(profile.dew_point().len(), 8);
    assert_eq!(profile.theta_e().len(), 8);
    assert_eq!(profile.wind().len(), 8);

    let pressure: Vec<Option<f64>> = profile.pressure().iter().map(|v| value(*v)).collect();
    assert_eq!(
        pressure,
        vec![Some(1000.0), Some(925.0), Some(921.0), None, None, Some(850.0), Some(700.0), Some(500.0)]
    );
    let temperature: Vec<Option<f64>> = profile.temperature().iter().map(|v| value(*v)).collect();
    assert_eq!(
        temperature,
        vec![None, None, Some(1.2), None, None, Some(1.8), Some(-5.5), Some(-21.9)]
    );
    let theta_e: Vec<Option<f64>> = profile.theta_e().iter().map(|v| value(*v)).collect();
    assert_eq!(
        theta_e,
        vec![None, None, Some(293.1), None, None, Some(302.3), Some(307.1), Some(309.3)]
    );
    let wind: Vec<Option<(f64, f64)>> = profile
        .wind()
        .iter()
        .map(|w| w.map(|w| (value(Some(w.speed)).unwrap(), value(Some(w.direction)).unwrap())))
        .collect();
    assert_eq!(
        wind,
        vec![None, None, Some((7.0, 50.0)), None, None, None, Some((33.0, 225.0)), None]
    );
}

#[test]
fn error_text() {
    let error = Error::InternalError(String::from("file not found"));
    assert_eq!(error.description(), "Error parsing bufkit file.\n");
}
