use sotalog::wspr::{parse_color, parse_datetime, wspr_chart, PlotConfig, WsprRequest};

#[test]
fn test_parse_datetime() {
    let ts1 = parse_datetime("2024-01-15 12:30").unwrap();
    assert!(ts1 > 0);

    let ts2 = parse_datetime("2024/01/15 12:30:00").unwrap();
    assert!(ts2 > 0);

    assert!(parse_datetime("invalid").is_none());
}

#[test]
fn test_parse_color() {
    let red = parse_color("#ff0000");
    assert_eq!(red, (255, 0, 0));

    let blue = parse_color("blue");
    assert_eq!(blue, (0, 0, 255));
}

#[test]
fn unix_times_exact() {
    assert_eq!(parse_datetime("1970-01-01 00:00"), Some(0));
    assert_eq!(parse_datetime("2024-01-15 12:30"), Some(1705321800));
    assert_eq!(parse_datetime("2024/01/15 12:30:15"), Some(1705321815));
}

#[test]
fn colors_by_hex_and_name() {
    assert_eq!(parse_color("##00FF7f"), (0, 255, 127));
    assert_eq!(parse_color("zz10+f"), (0, 16, 15));
    assert_eq!(parse_color("Red"), (255, 0, 0));
    assert_eq!(parse_color("CYAN"), (0, 255, 255));
    assert_eq!(parse_color("Orange"), (0, 0, 0));
    assert_eq!(parse_color("nothing"), (0, 0, 0));
}

fn line(date: &str, time: &str, snr: i32, rp: &str, km: i32) -> String {
    format!("{} {} x y {} a b c {} d {} 120 z", date, time, snr, rp, km)
}

#[test]
fn chart_sorts_spots_into_windows() {
    let spots = vec![
        line("2024-01-01", "10:10", -10, "R1", 100),
        line("2024-01-01", "10:05", -20, "R2", 200),
        line("2024-01-01", "11:00", -5, "R1", 150),
        line("2024-01-01", "11:05", -7, "R3", 5000),
        "not a spot line".to_string(),
        line("2024-01-01", "11:10", 3, "R2", 250),
    ]
    .join("\n");
    let request = WsprRequest {
        title: "T".to_string(),
        plots: vec![
            PlotConfig { label: "B".into(), color: "blue".into(), from: "2024-01-01 11:00".into(), to: "2024-01-01 11:59".into() },
            PlotConfig { label: "A".into(), color: "#ff0000".into(), from: "2024-01-01 10:00".into(), to: "2024-01-01 10:59".into() },
            PlotConfig { label: "bad".into(), color: "red".into(), from: "never".into(), to: "2024-01-01 10:59".into() },
        ],
        spots,
        min: 0,
        max: 1000,
        label: false,
        width: 800,
    };
    let chart = wspr_chart(&request);
    assert_eq!(chart.plots.len(), 2);
    let a = &chart.plots[0];
    assert_eq!(a.label, "A");
    assert_eq!(a.color, (255, 0, 0));
    assert_eq!(a.repo, vec!["R2".to_string(), "R1".to_string()]);
    assert_eq!(a.snr, vec![-20, -10]);
    assert_eq!(a.dist, vec![250, 150]);
    let b = &chart.plots[1];
    assert_eq!(b.repo, vec!["R1".to_string(), "R2".to_string()]);
    assert_eq!(chart.common, vec!["R1".to_string(), "R2".to_string()]);
    assert_eq!(a.avgdist, vec![150, 250]);
    assert_eq!(a.avgsnr, vec![vec![-10], vec![-20]]);
    assert!(b.avgsnr.is_empty() && b.avgdist.is_empty());
    assert_eq!((chart.min_dist, chart.max_dist), (150, 250));
    assert_eq!((chart.min_snr, chart.max_snr), (-20, 3));
}

#[test]
fn chart_without_spots_uses_default_ranges() {
    let request = WsprRequest {
        title: "Test".to_string(),
        plots: vec![PlotConfig {
            label: "Plot1".to_string(),
            color: "red".to_string(),
            from: "2024-01-01 00:00".to_string(),
            to: "2024-01-01 23:59".to_string(),
        }],
        spots: String::new(),
        min: 0,
        max: 10000,
        label: false,
        width: 800,
    };
    let chart = wspr_chart(&request);
    assert_eq!(chart.plots.len(), 1);
    assert!(chart.common.is_empty());
    assert_eq!((chart.min_dist, chart.max_dist, chart.min_snr, chart.max_snr), (0, 10000, -30, 10));
}
