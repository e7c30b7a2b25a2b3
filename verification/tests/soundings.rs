use sounding_wyoming_text_list::{
    create_text_section_iterator, parse, parse_text, Number, SoundingText, ValidTime,
};

fn value(number: Option<Number>) -> Option<f64> {
    number.map(|n| std::str::from_utf8(n.as_bytes()).unwrap().parse::<f64>().unwrap())
}

const TABLE_HEAD: &str = "\
-----------------------------------------------------------------------------
   PRES   HGHT   TEMP   DWPT   RELH   MIXR   DRCT   SKNT   THTA   THTE   THTV
    hPa     m      C      C      %    g/kg    deg   knot     K      K      K 
-----------------------------------------------------------------------------
";

fn table(levels: usize) -> String {
    let mut text = String::from(TABLE_HEAD);
    for i in 0..levels {
        text.push_str(&format!(
            "{:>7.1}{:>7}{:>7.1}{:>7.1}{:>7}{:>7.2}{:>7}{:>7}{:>7.1}{:>7.1}{:>7.1}\n",
            1000.0 - 50.0 * i as f64,
            100 + 500 * i,
            10.5 - 6.0 * i as f64,
            5.5 - 7.0 * i as f64,
            80,
            4.44,
            200 + i,
            10 + i,
            280.0 + i as f64,
            290.0 + i as f64,
            281.0 + i as f64,
        ));
    }
    text
}

fn info(station: &str, time: &str) -> String {
    format!(
        "\
                         Station identifier: {station}
                             Station number: 72786
                           Observation time: {time}
                           Station latitude: 47.68
                          Station longitude: -117.63
                          Station elevation: 728.0
                            Showalter index: 5.30
                               Lifted index: 8.08
      Convective Available Potential Energy: 12.25
Precipitable water [mm] for entire sounding: 14.29
"
    )
}

fn report(open: &str, close: &str, table: &str, info: &str) -> String {
    format!(
        "<H2>Observations</H2>\n{open}\n{table}{close}<H3>Station information and sounding indices</H3>{open}\n{info}{close}\n"
    )
}

fn page(reports: &[String]) -> String {
    let mut text = String::from("<HTML>\n<TITLE>Radiosonde Data</TITLE>\n<BODY>\n");
    for report in reports {
        text.push_str(report);
    }
    text.push_str("<P>Description of the data columns.\n</BODY>\n</HTML>\n");
    text
}

fn twenty(open: &str, close: &str) -> String {
    let reports: Vec<String> = (0..20)
        .map(|i| report(open, close, &table(6 + i), &info("TFX", &format!("1801{:02}/1200", i + 1))))
        .collect();
    page(&reports)
}

#[test]
fn one_sounding_with_blank_temperatures() {
    let mut rows = String::from(TABLE_HEAD);
    for i in 0..6 {
        rows.push_str(&format!("{:>7.1}{:>7}{:>14}\n", 1000.0 - 100.0 * i as f64, 100 + 900 * i, ""));
    }
    let header = "Observation time: 700727/1200\nStation identifier: OTX\n";
    let text = page(&[report("<PRE>", "</PRE>", &rows, header)]);

    let mut soundings = parse_text("otx.html", &text);
    let (sounding, indexes) = soundings.next().unwrap();
    assert!(soundings.next().is_none());
    assert_eq!(parse_text("otx.html", &text).count(), 1);

    assert_eq!(sounding.source_description(), "otx.html");
    assert_eq!(sounding.valid_time(), ValidTime { year: 1970, month: 7, day: 27, hour: 12 });
    assert_eq!(sounding.station_info().id, Some(&b"OTX"[..]));
    assert_eq!(sounding.station_info().number, None);
    let profile = sounding.profile();
    assert_eq!(profile.len(), 6);
    assert_eq!(profile.temperature().len(), 6);
    assert!(profile.temperature().iter().all(|v| v.is_none()));
    assert!(profile.dew_point().iter().all(|v| v.is_none()));
    assert!(profile.pressure().iter().all(|v| v.is_some()));
    assert!(profile.height().iter().all(|v| v.is_some()));
    assert_eq!(value(profile.pressure()[0]), Some(1000.0));
    assert_eq!(value(profile.height()[5]), Some(4600.0));
    assert!((0..24).all(|kind| indexes.get(kind).is_none()));
}

#[test]
fn time_of_seven_bytes_gives_no_sounding() {
    let header = "Observation time: 7072712\nStation identifier: OTX\n";
    let text = page(&[report("<PRE>", "</PRE>", &table(6), header)]);
    assert_eq!(parse_text("otx.html", &text).count(), 0);
}

#[test]
fn sounding_carries_what_the_report_says() {
    let text = page(&[report("<PRE>", "</PRE>", &table(7), &info("OTX", "180109/0000"))]);
    let mut soundings = parse_text("otx.html", &text);
    let (sounding, indexes) = soundings.next().unwrap();
    assert!(soundings.next().is_none());
    assert!(soundings.next().is_none());

    assert_eq!(sounding.source_description(), "otx.html");
    assert_eq!(sounding.valid_time(), ValidTime { year: 2018, month: 1, day: 9, hour: 0 });
    let station = sounding.station_info();
    assert_eq!(station.number, Some(72786));
    assert_eq!(station.id, Some(&b"OTX"[..]));
    let (latitude, longitude) = station.location.unwrap();
    assert_eq!(value(Some(latitude)), Some(47.68));
    assert_eq!(value(Some(longitude)), Some(-117.63));
    assert_eq!(value(station.elevation), Some(728.0));

    let profile = sounding.profile();
    assert_eq!(profile.len(), 7);
    assert_eq!(value(profile.pressure()[2]), Some(900.0));
    assert_eq!(value(profile.height()[2]), Some(1100.0));
    assert_eq!(value(profile.temperature()[2]), Some(-1.5));
    assert_eq!(value(profile.dew_point()[2]), Some(-8.5));
    assert_eq!(value(profile.theta_e()[2]), Some(292.0));
    let wind = profile.wind()[2].unwrap();
    assert_eq!(value(Some(wind.speed)), Some(12.0));
    assert_eq!(value(Some(wind.direction)), Some(202.0));

    assert_eq!(value(indexes.lookup("Showalter index")), Some(5.3));
    assert_eq!(value(indexes.lookup("Lifted index")), Some(8.08));
    assert_eq!(value(indexes.lookup("Convective Available Potential Energy")), Some(12.25));
    assert_eq!(value(indexes.lookup("Precipitable water [mm] for entire sounding")), Some(14.29));
    assert_eq!(value(indexes.lookup("Station latitude")), Some(47.68));
    assert_eq!(value(indexes.lookup("Station longitude")), Some(-117.63));
    assert_eq!(value(indexes.lookup("Station elevation")), Some(728.0));
    assert!(indexes.lookup("K index").is_none());
}

#[test]
fn twenty_soundings() {
    let text = twenty("<PRE>", "</PRE>");
    assert_eq!(parse_text("tfx", &text).count(), 20);
    assert_eq!(create_text_section_iterator(&text).count(), 20);
}

#[test]
fn soundings_come_in_the_order_of_the_page() {
    let text = twenty("<PRE>", "</PRE>");
    let mut soundings = parse_text("tfx", &text);
    for i in 0..20 {
        let (sounding, _) = soundings.next().unwrap();
        assert_eq!(sounding.valid_time().day, i + 1);
        assert_eq!(sounding.profile().len(), 6 + i as usize);
    }
    assert!(soundings.next().is_none());
}

#[test]
fn letters_of_the_markers_do_not_matter() {
    let capitals = twenty("<PRE>", "</PRE>");
    let small = twenty("<pre>", "</pre>");
    assert_eq!(parse_text("a", &small).count(), parse_text("a", &capitals).count());
    assert_eq!(parse_text("a", &small).count(), 20);

    let mixed = page(&[
        report("<pre>", "</pre>", &table(6), &info("OTX", "180101/0000")),
        report("<PRE>", "</PRE>", &table(7), &info("OTX", "180102/0000")),
        report("<pre>", "</PRE>", &table(8), &info("OTX", "180103/0000")),
    ]);
    let mut soundings = parse_text("mixed", &mixed);
    for day in 1..=3 {
        assert_eq!(soundings.next().unwrap().0.valid_time().day, day);
    }
    assert!(soundings.next().is_none());
}

#[test]
fn report_that_holds_no_sounding_is_passed_over() {
    let text = page(&[
        report("<PRE>", "</PRE>", &table(6), &info("OTX", "180101/0000")),
        report("<PRE>", "</PRE>", "a caption\n", &info("OTX", "180102/0000")),
        report("<PRE>", "</PRE>", &table(4), &info("OTX", "180103/0000")),
        report("<PRE>", "</PRE>", &table(6), "Station number: none\nObservation time: 180104/0000\n"),
        report("<PRE>", "</PRE>", &table(6), "Station number: 1\n"),
        report("<PRE>", "</PRE>", &table(6), &info("OTX", "180231/0000")),
        report("<PRE>", "</PRE>", &table(5), &info("OTX", "180107/0000")),
    ]);
    assert_eq!(create_text_section_iterator(&text).count(), 7);
    let mut soundings = parse_text("some", &text);
    assert_eq!(soundings.next().unwrap().0.valid_time().day, 1);
    assert_eq!(soundings.next().unwrap().0.valid_time().day, 7);
    assert!(soundings.next().is_none());
    assert_eq!(parse_text("some", &text).count(), 2);
}

#[test]
fn few_pressures_refuse_the_report_whatever_follows() {
    let mut rows = String::from(TABLE_HEAD);
    for i in 0..8 {
        let pressure = if i < 4 { format!("{:.1}", 1000.0 - 100.0 * i as f64) } else { String::new() };
        rows.push_str(&format!("{:>7}{:>7}\n", pressure, 100 + 900 * i));
    }
    let header = info("OTX", "180109/0000");
    assert!(parse(SoundingText { upper_air: &rows, stn_info_and_indexes: &header }, "x").is_none());
    assert!(
        parse(SoundingText { upper_air: &rows, stn_info_and_indexes: "Station number: bad" }, "x")
            .is_none()
    );
    let text = page(&[report("<PRE>", "</PRE>", &rows, &header)]);
    assert_eq!(parse_text("x", &text).count(), 0);
}

#[test]
fn two_walks_over_one_page_agree() {
    let text = twenty("<pre>", "</pre>");
    let mut first = parse_text("same", &text);
    let mut second = parse_text("same", &text);
    loop {
        let a = first.next();
        let b = second.next();
        assert_eq!(a, b);
        if a.is_none() {
            break;
        }
    }
    assert_eq!(first.next(), None);
}

#[test]
fn page_without_reports() {
    assert_eq!(parse_text("none", "").count(), 0);
    assert_eq!(parse_text("none", "<HTML><BODY>Sorry, no data.</BODY></HTML>").count(), 0);
    assert_eq!(parse_text("none", "<PRE>only one section</PRE>").count(), 0);
    assert_eq!(parse_text("none", "<PRE>open and never closed").count(), 0);
}

#[test]
fn collected_soundings_are_those_of_the_walk() {
    let text = twenty("<PRE>", "</PRE>");
    let all = parse_text("tfx", &text).collect();
    assert_eq!(all.len(), 20);
    let mut walk = parse_text("tfx", &text);
    for item in &all {
        assert_eq!(walk.next().as_ref(), Some(item));
    }
    assert!(walk.next().is_none());
    assert_eq!(all[19].0.valid_time(), ValidTime { year: 2018, month: 1, day: 20, hour: 12 });
    assert!(parse_text("none", "no report").collect().is_empty());
}
