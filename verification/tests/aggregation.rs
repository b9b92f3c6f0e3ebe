use coursebuilder::builder::CourseBuilder;
use coursebuilder::resolve::{Step, TimeMode};

fn builder(ftp: u16, raster: u32) -> CourseBuilder {
    CourseBuilder {
        name: "course".to_string(),
        description: None,
        author: "someone".to_string(),
        time_mode: TimeMode::Time,
        sport_type: "ride".to_string(),
        ftp,
        accel_num: 1,
        accel_den: 1,
        scale_num: 1,
        scale_den: 1,
        raster,
    }
}

fn step(time: u64, watts: Option<u16>, text: Option<&str>) -> Step {
    Step { time, watts, text: text.map(|t| t.to_string()) }
}

#[test]
fn single_power_sample_makes_one_section() {
    let b = builder(100, 30);
    let out = b.translate(&vec![step(0, Some(100), None)]);
    assert_eq!(out.len(), 1);
    assert_eq!(out[0].start, 0);
    assert_eq!(out[0].duration, 30);
    assert_eq!(out[0].power, 100);
    assert!(out[0].text.is_empty());
}

#[test]
fn constant_power_collapses_to_one_section() {
    let b = builder(100, 30);
    let out = b.translate(&vec![
        step(0, Some(100), None),
        step(30, Some(100), None),
        step(60, Some(100), None),
    ]);
    assert_eq!(out.len(), 1);
    assert_eq!(out[0].start, 0);
    assert_eq!(out[0].power, 100);
}

#[test]
fn each_power_run_makes_one_section() {
    let b = builder(100, 30);
    let out = b.translate(&vec![
        step(0, Some(100), None),
        step(30, Some(100), None),
        step(60, Some(200), None),
    ]);
    // Two runs of equal power: 100, 100 | 200. The equal sample extends the
    // first section through its own raster slot.
    assert_eq!(out.len(), 2);
    assert_eq!(out[0].start, 0);
    assert_eq!(out[0].duration, 60);
    assert_eq!(out[0].power, 100);
    assert_eq!(out[1].start, 60);
    assert_eq!(out[1].duration, 30);
    assert_eq!(out[1].power, 200);
}

#[test]
fn first_section_start_snaps_without_a_floor() {
    let b = builder(100, 30);
    let out = b.translate(&vec![step(40, Some(100), None)]);
    // 40 snaps to the nearest raster multiple, 30; a time of zero stays zero.
    assert_eq!(out[0].start, 30);
}

#[test]
fn ramp_to_steady_makes_two_sections() {
    let b = builder(150, 30);
    let out = b.translate(&vec![
        step(0, Some(100), None),
        step(30, Some(150), Some("go")),
        step(60, Some(150), None),
    ]);
    assert_eq!(out.len(), 2);
    assert_eq!(out[0].start, 0);
    assert_eq!(out[0].duration, 30);
    assert_eq!(out[0].power, 67);
    assert!(out[0].text.is_empty());
    assert_eq!(out[1].start, 30);
    assert_eq!(out[1].duration, 60);
    assert_eq!(out[1].power, 100);
    assert_eq!(out[1].text.len(), 1);
    assert_eq!(out[1].text[0].offset, 0);
    assert_eq!(out[1].text[0].text, "go");
}

#[test]
fn sections_chain_without_gaps_or_overlaps() {
    let b = builder(100, 30);
    let out = b.translate(&vec![
        step(0, Some(100), None),
        step(45, Some(150), None),
        step(140, Some(200), None),
        step(150, Some(80), None),
    ]);
    assert_eq!(out.len(), 4);
    for w in out.windows(2) {
        assert_eq!(w[1].start, w[0].start + w[0].duration);
    }
}

#[test]
fn annotation_before_any_section_is_dropped() {
    let b = builder(100, 30);
    let out = b.translate(&vec![step(0, None, Some("lost"))]);
    assert!(out.is_empty());

    let out = b.translate(&vec![
        step(0, None, Some("lost")),
        step(30, Some(100), None),
    ]);
    assert_eq!(out.len(), 1);
    assert!(out[0].text.is_empty());
}

#[test]
fn annotation_attaches_to_the_open_section() {
    let b = builder(100, 30);
    let out = b.translate(&vec![
        step(0, Some(100), None),
        step(30, None, Some("mid")),
        step(60, Some(200), None),
    ]);
    assert_eq!(out.len(), 2);
    assert_eq!(out[0].text.len(), 1);
    assert_eq!(out[0].text[0].offset, 30);
    assert_eq!(out[0].text[0].text, "mid");
    assert!(out[1].text.is_empty());
}

#[test]
fn late_annotation_extends_the_section_by_one_raster() {
    let b = builder(100, 30);
    let out = b.translate(&vec![
        step(0, Some(100), None),
        step(44, None, Some("late")),
    ]);
    // offset 44 measures the duration to 30, but snaps to 45 on the
    // annotation raster of 5, so the section grows by one raster unit.
    assert_eq!(out.len(), 1);
    assert_eq!(out[0].start, 0);
    assert_eq!(out[0].duration, 60);
    assert_eq!(out[0].text[0].offset, 45);

    let b = builder(100, 10);
    let out = b.translate(&vec![
        step(0, Some(100), None),
        step(22, None, Some("late")),
    ]);
    // offset 22 measures to duration 20 and also snaps to 20 on the
    // annotation raster; the duration covers it, so no growth.
    assert_eq!(out[0].duration, 20);
    assert_eq!(out[0].text[0].offset, 20);
    let out = b.translate(&vec![
        step(0, Some(100), None),
        step(23, None, Some("late")),
    ]);
    // offset 23 measures to duration 20 but snaps to 25 on the annotation
    // raster, so the section grows by one raster unit.
    assert_eq!(out[0].duration, 30);
    assert_eq!(out[0].text[0].offset, 25);
}

#[test]
fn power_is_scaled_against_the_reference() {
    let b = builder(150, 30);
    let out = b.translate(&vec![step(0, Some(100), None)]);
    assert_eq!(out[0].power, 67);

    let mut b = builder(100, 30);
    b.scale_num = 3;
    b.scale_den = 2;
    let out = b.translate(&vec![step(0, Some(100), None)]);
    assert_eq!(out[0].power, 150);
}

#[test]
fn acceleration_compresses_the_timeline() {
    let mut b = builder(100, 30);
    b.accel_num = 2;
    b.accel_den = 1;
    let out = b.translate(&vec![
        step(0, Some(100), None),
        step(120, Some(200), None),
    ]);
    // 120 s shrink to 60 s; the first section is measured up to there.
    assert_eq!(out[0].start, 0);
    assert_eq!(out[0].duration, 60);
    assert_eq!(out[1].start, 60);
}

#[test]
fn samples_without_power_or_text_only_remeasure() {
    let b = builder(100, 30);
    let out = b.translate(&vec![
        step(0, Some(100), None),
        step(100, None, None),
    ]);
    assert_eq!(out.len(), 1);
    assert_eq!(out[0].duration, 90);
}
