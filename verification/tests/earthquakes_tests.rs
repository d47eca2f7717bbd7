use quake_lights::earthquakes::{query_url_for, QuakeWatch, QUERY_BASE_URL};

#[test]
fn url_of_epoch() {
    let w = QuakeWatch::new(0);
    assert_eq!(
        w.query_url().unwrap(),
        format!("{}1970-01-01T00:00:00", QUERY_BASE_URL)
    );
}

#[test]
fn url_of_a_date_in_october_2020() {
    let w = QuakeWatch::new(1602851133);
    assert_eq!(
        w.query_url().unwrap(),
        "https://earthquake.usgs.gov/fdsnws/event/1/query?format=geojson&limit=1&starttime=2020-10-16T12:25:33"
    );
}

#[test]
fn url_out_of_range_is_none() {
    assert!(QuakeWatch::new(i64::MAX).query_url().is_none());
}

#[test]
fn url_for_text_appends() {
    assert_eq!(query_url_for("X"), format!("{}X", QUERY_BASE_URL));
}

#[test]
fn observing_nothing_keeps_start() {
    let mut w = QuakeWatch::new(1000);
    assert!(!w.observe(&[]));
    assert_eq!(w.start_secs(), 1000);
}

#[test]
fn observing_event_moves_start_past_it() {
    let mut w = QuakeWatch::new(1000);
    assert!(w.observe(&[1602851133999, 5]));
    assert_eq!(w.start_secs(), 1602851134);
    assert!(w.start_secs() * 1000 > 1602851133999);
}

#[test]
fn observing_negative_time_rounds_toward_zero() {
    let mut w = QuakeWatch::new(7);
    assert!(w.observe(&[-1500]));
    assert_eq!(w.start_secs(), 0);
    assert!(w.start_secs() * 1000 > -1500);
}

#[test]
fn next_start_is_after_each_event() {
    for t in [0i64, 1, 999, 1000, 1001, -1, -999, -1000, -1001, 1602851133000] {
        let mut w = QuakeWatch::new(0);
        w.observe(&[t]);
        assert!(w.start_secs() * 1000 > t);
        assert!(w.start_secs() * 1000 <= t + 2000);
    }
}
