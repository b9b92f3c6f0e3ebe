use coursebuilder::builder::CourseBuilder;
use coursebuilder::course::{expand_tabs, power_text, u64_to_string, Course};
use coursebuilder::csvio::parse_csv;
use coursebuilder::resolve::TimeMode;
use coursebuilder::translate::{Hint, Section};

#[test]
fn numbers_render_in_decimal() {
    assert_eq!(u64_to_string(0), "0");
    assert_eq!(u64_to_string(7), "7");
    assert_eq!(u64_to_string(30), "30");
    assert_eq!(u64_to_string(12345), "12345");
}

#[test]
fn power_renders_as_shortest_fraction() {
    assert_eq!(power_text(100), "1");
    assert_eq!(power_text(67), "0.67");
    assert_eq!(power_text(150), "1.5");
    assert_eq!(power_text(5), "0.05");
    assert_eq!(power_text(0), "0");
    assert_eq!(power_text(205), "2.05");
}

#[test]
fn tabs_expand_to_four_spaces() {
    assert_eq!(expand_tabs("a\tb\t"), "a    b    ");
    assert_eq!(expand_tabs(""), "");
}

#[test]
fn document_layout_is_nested_and_tagged() {
    let course = Course {
        name: "morning".to_string(),
        description: None,
        author: "someone".to_string(),
        sport_type: "ride".to_string(),
        sections: vec![
            Section { start: 30, duration: 30, power: 67, text: vec![] },
            Section {
                start: 60,
                duration: 60,
                power: 100,
                text: vec![Hint { offset: 5, text: "go".to_string() }],
            },
        ],
    };
    let expected = "<workout_file>\n\t<author>someone</author>\n\t<name>morning</name>\n\t<description/>\n\t<sportType>ride</sportType>\n\t<tags/>\n\t<workout>\n\t\t<SteadyState Duration=\"30\" Power=\"0.67\" pace=\"0\"/>\n\t\t<SteadyState Duration=\"60\" Power=\"1\" pace=\"0\">\n\t\t\t<textevent timeoffset=\"5\" message=\"go\"/>\n\t\t</SteadyState>\n\t</workout>\n</workout_file>\n";
    assert_eq!(course.to_text(), expected);
}

#[test]
fn description_renders_when_present() {
    let course = Course {
        name: "n".to_string(),
        description: Some("easy spin".to_string()),
        author: "a".to_string(),
        sport_type: "ride".to_string(),
        sections: vec![],
    };
    let text = course.to_text();
    assert!(text.contains("\t<description>easy spin</description>\n"));
    assert!(text.contains("\t<workout>\n\t</workout>\n"));
}

#[test]
fn whole_run_from_rows_to_document() {
    let b = CourseBuilder {
        name: "ramp".to_string(),
        description: None,
        author: "someone".to_string(),
        time_mode: TimeMode::Time,
        sport_type: "ride".to_string(),
        ftp: 150,
        accel_num: 1,
        accel_den: 1,
        scale_num: 1,
        scale_den: 1,
        raster: 30,
    };
    let text = "time,power,text\n00:00:00,100,\n00:00:30,150,go\n00:01:00,150,\n";
    let records = parse_csv(text).unwrap();
    let document = b.build(&records).unwrap();
    let expected = "<workout_file>\n\t<author>someone</author>\n\t<name>ramp</name>\n\t<description/>\n\t<sportType>ride</sportType>\n\t<tags/>\n\t<workout>\n\t\t<SteadyState Duration=\"30\" Power=\"0.67\" pace=\"0\"/>\n\t\t<SteadyState Duration=\"60\" Power=\"1\" pace=\"0\">\n\t\t\t<textevent timeoffset=\"0\" message=\"go\"/>\n\t\t</SteadyState>\n\t</workout>\n</workout_file>\n";
    assert_eq!(document, expected);
    assert!(expand_tabs(&document).starts_with("<workout_file>\n    <author>"));
}
