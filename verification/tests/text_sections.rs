use sounding_wyoming_text_list::{create_text_section_iterator, find_next_pre_section};

const TABLE_HEAD: &str = "\
-----------------------------------------------------------------------------
   PRES   HGHT   TEMP   DWPT   RELH   MIXR   DRCT   SKNT   THTA   THTE   THTV
    hPa     m      C      C      %    g/kg    deg   knot     K      K      K 
-----------------------------------------------------------------------------
";

const TABLE_ROWS: &str = "\
 1000.0    117                                                               
  925.0    753                                                               
  921.0    728    1.2    0.9     98   4.44     50      7  280.7  293.1  281.5
  910.0    821    2.2    1.6     96   4.74     74     10  282.7  296.0  283.5
  850.0   1428    1.8    1.5     98   5.03    205     16  287.9  302.3  288.8
  700.0   2990   -5.5   -5.9     97   3.58    225     33  296.2  307.1  296.9
  500.0   5510  -21.9  -23.7     85   1.14    230     52  305.4  309.3  305.6
  400.0   7090  -34.1  -38.1     67   0.36    235     63  309.4  310.8  309.5
  300.0   9010  -50.5  -56.5     49   0.06    240     77  312.2  312.5  312.2
";

const STATION_INFO: &str = "\
                         Station identifier: OTX
                             Station number: 72786
                           Observation time: 180109/0000
                           Station latitude: 47.68
                          Station longitude: -117.63
                          Station elevation: 728.0
                            Showalter index: 5.30
                               Lifted index: 8.08
    LIFT computed using virtual temperature: 8.12
                                SWEAT index: 108.99
                                    K index: 17.70
                         Cross totals index: 18.50
                      Vertical totals index: 20.10
                        Totals totals index: 38.60
      Convective Available Potential Energy: 0.00
             CAPE using virtual temperature: 0.00
                      Convective Inhibition: 0.00
             CINS using virtual temperature: 0.00
                     Bulk Richardson Number: 0.00
          Bulk Richardson Number using CAPV: 0.00
  Temp [K] of the Lifted Condensation Level: 273.60
Pres [hPa] of the Lifted Condensation Level: 916.30
   Equivalent potential temp [K] of the LCL: 293.10
     Mean mixed layer potential temperature: 280.60
              Mean mixed layer mixing ratio: 4.44
              1000 hPa to 500 hPa thickness: 5365.00
Precipitable water [mm] for entire sounding: 14.29
";

fn report(open: &str, close: &str, station: &str, hour: &str) -> String {
    format!(
        "<H2>72786 {station} Observations at {hour}Z 09 Jan 2018</H2>\n{open}\n{TABLE_HEAD}{TABLE_ROWS}{close}<H3>Station information and sounding indices</H3>{open}\n{STATION_INFO}{close}\n"
    )
}

fn page(reports: usize, open: &str, close: &str) -> String {
    let mut text = String::from(
        "<HTML>\n<TITLE>University of Wyoming - Radiosonde Data</TITLE>\n<BODY BGCOLOR=\"white\">\n",
    );
    for i in 0..reports {
        text.push_str(&report(open, close, "OTX", if i % 2 == 0 { "00" } else { "12" }));
    }
    text.push_str("<P>Description of the data columns or sounding indices.\n</BODY>\n</HTML>\n");
    text
}

fn get_otx() -> String {
    page(1, "<PRE>", "</PRE>")
}

fn get_otx2() -> String {
    page(1, "<pre>", "</pre>")
}

fn get_tfx() -> String {
    page(20, "<PRE>", "</PRE>")
}

#[test]
fn test_otx_count() {
    let text = get_otx();

    let iter = create_text_section_iterator(&text);
    assert_eq!(iter.count(), 1);
}

#[test]
fn test_otx2_count() {
    let text = get_otx2();

    let iter = create_text_section_iterator(&text);
    assert_eq!(iter.count(), 1);
}

#[test]
fn test_tfx() {
    let text = get_tfx();

    let iter = create_text_section_iterator(&text);
    assert_eq!(iter.count(), 20);
}

#[test]
fn section_body_lies_between_its_markers() {
    let (body, after) = find_next_pre_section("ab<PRE>cd</PRE>ef").unwrap();
    assert_eq!(body, "cd");
    assert_eq!(after, 15);
}

#[test]
fn section_needs_both_markers() {
    assert!(find_next_pre_section("no marker at all").is_none());
    assert!(find_next_pre_section("<PRE>never closed").is_none());
    assert!(find_next_pre_section("</PRE>only closed").is_none());
    assert!(find_next_pre_section("").is_none());
}

#[test]
fn markers_of_either_case_are_found_in_document_order() {
    let (body, after) = find_next_pre_section("<pre>one</PRE><PRE>two</pre>").unwrap();
    assert_eq!(body, "one");
    assert_eq!(after, 14);
    assert!(find_next_pre_section("<Pre>mixed</Pre>").is_none());
}

#[test]
fn half_a_pair_is_no_pair() {
    let mut iter = create_text_section_iterator("<PRE>a</PRE><PRE>b</PRE><PRE>c</PRE>");
    let first = iter.next().unwrap();
    assert_eq!(first.upper_air, "a");
    assert_eq!(first.stn_info_and_indexes, "b");
    assert!(iter.next().is_none());
    assert!(iter.next().is_none());
}

#[test]
fn sections_keep_text_that_is_not_ascii() {
    let mut iter = create_text_section_iterator("é<PRE>−40 °C</PRE>ü<pre>ß</pre>");
    let pair = iter.next().unwrap();
    assert_eq!(pair.upper_air, "−40 °C");
    assert_eq!(pair.stn_info_and_indexes, "ß");
    assert!(iter.next().is_none());
}
