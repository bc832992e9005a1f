use clawmon_core::settings::Settings;
use clawmon_core::usage::{
    parse_usage, query_usage, usage_shown, usage_step, RawLimit, UsageInfo, UsageReply, UsageStep,
};
use serde_json::Value;

fn number(v: &Value, key: &str) -> u64 {
    v.get(key).and_then(Value::as_u64).unwrap_or(0)
}

fn text_of(v: &Value, key: &str) -> Option<String> {
    v.get(key).and_then(Value::as_str).map(String::from)
}

/// Decode a reply by hand: every field defaults.
fn decode(raw: &str) -> Result<UsageReply<f64>, String> {
    let v: Value = serde_json::from_str(raw).map_err(|e| e.to_string())?;
    let limits = match v.get("limits").and_then(Value::as_array) {
        Some(list) => list
            .iter()
            .map(|l| RawLimit {
                unit: l.get("unit").and_then(Value::as_i64).unwrap_or(0),
                percentage: l.get("percentage").and_then(Value::as_f64).unwrap_or(0.0),
                current_value: number(l, "currentValue"),
                usage: number(l, "usage"),
                remaining: number(l, "remaining"),
                next_reset_ms: number(l, "nextResetTime"),
            })
            .collect(),
        None => Vec::new(),
    };
    Ok(UsageReply {
        error: text_of(&v, "error"),
        limits,
        level: text_of(&v, "level").unwrap_or_default(),
    })
}

fn parse(raw: &str) -> Result<UsageInfo<f64>, String> {
    parse_usage(decode(raw))
}

/// The payload shape captured live from the quota API on 2026-09-13.
#[test]
fn parse_verified_payload() {
    let raw = r#"{"limits":[
        {"type":"CREDIT_LIMIT","unit":3,"number":5,"usage":12000,
         "currentValue":2078,"remaining":9921,"percentage":17,
         "nextResetTime":1789299804490},
        {"type":"CREDIT_LIMIT","unit":6,"number":1,"usage":60000,
         "currentValue":13153,"remaining":46846,"percentage":21,
         "nextResetTime":1789726744992}
    ],"level":"pro"}"#;
    let info = parse(raw).unwrap();
    assert_eq!(info.level, "pro");
    let fh = info.five_hour.expect("five-hour window present");
    assert_eq!(fh.percentage, 17.0);
    assert_eq!(fh.consumed, 2078);
    assert_eq!(fh.total, 12000);
    assert_eq!(fh.remaining, 9921);
    assert_eq!(fh.next_reset_ms, 1789299804490);
    let wk = info.weekly.expect("weekly window present");
    assert_eq!(wk.percentage, 21.0);
    assert_eq!(wk.consumed, 13153);
}

#[test]
fn error_reply_maps_to_err() {
    let info = parse(r#"{"error":"http 401"}"#);
    assert_eq!(info.unwrap_err(), "http 401");
}

/// A plan with no quota windows is not an error — the UI just hides
/// the chip.
#[test]
fn missing_limits_is_ok_and_hidden() {
    let info = parse(r#"{"limits":[],"level":"lite"}"#).unwrap();
    assert!(info.five_hour.is_none());
    assert!(info.weekly.is_none());
    assert_eq!(info.level, "lite");
}

#[test]
fn unknown_unit_is_ignored() {
    let raw = r#"{"limits":[
        {"type":"CREDIT_LIMIT","unit":9,"usage":1,"currentValue":1,
         "remaining":0,"percentage":100,"nextResetTime":1}
    ],"level":"pro"}"#;
    let info = parse(raw).unwrap();
    assert!(info.five_hour.is_none());
    assert!(info.weekly.is_none());
}

#[test]
fn malformed_json_is_err() {
    assert!(parse("<html>502</html>").is_err());
}

// ---- further cases ---------------------------------------------------------

fn limit(unit: i64, current_value: u64) -> RawLimit<u8> {
    RawLimit {
        unit,
        percentage: 50,
        current_value,
        usage: 100,
        remaining: 7,
        next_reset_ms: 8,
    }
}

#[test]
fn the_last_window_of_a_unit_counts() {
    let info = parse_usage(Ok(UsageReply {
        error: None,
        limits: vec![limit(3, 1), limit(6, 2), limit(3, 3), limit(4, 9)],
        level: String::new(),
    }))
    .unwrap();
    let fh = info.five_hour.unwrap();
    assert_eq!((fh.consumed, fh.total, fh.remaining), (3, 100, 7));
    assert_eq!((fh.percentage, fh.next_reset_ms), (50, 8));
    assert_eq!(info.weekly.unwrap().consumed, 2);
}

#[test]
fn unreadable_replies_are_named() {
    let e = parse_usage::<u8>(Err("eof".to_string())).unwrap_err();
    assert_eq!(e, "解析套餐用量失败: eof");
}

#[test]
fn an_error_wins_over_its_windows() {
    let e = parse_usage(Ok(UsageReply {
        error: Some("network error".to_string()),
        limits: vec![limit(3, 1)],
        level: "pro".to_string(),
    }))
    .unwrap_err();
    assert_eq!(e, "network error");
}

#[test]
fn the_query_runs_inside_wsl() {
    let st = Settings {
        wsl_distro: "Ubuntu".into(),
        ..Default::default()
    };
    let i = query_usage(true, &st, "script");
    assert_eq!(i.program, "wsl.exe");
    assert_eq!(i.args, ["-d", "Ubuntu", "python3", "-"]);
    assert_eq!(i.stdin.as_deref(), Some("script"));
}

#[test]
fn the_chip_is_cleared_once() {
    assert_eq!(usage_step(true, true), (UsageStep::Query, true));
    assert_eq!(usage_step(true, false), (UsageStep::Query, true));
    assert_eq!(usage_step(false, true), (UsageStep::Clear, false));
    assert_eq!(usage_step(false, false), (UsageStep::Nothing, false));
}

#[test]
fn a_failed_query_keeps_the_last_value() {
    let old = UsageInfo::<u8> {
        level: "old".into(),
        ..Default::default()
    };
    let new = UsageInfo::<u8> {
        level: "new".into(),
        ..Default::default()
    };
    let kept = usage_shown(Some(old.clone()), Err("down".to_string()));
    assert_eq!(kept, Some(old.clone()));
    assert_eq!(usage_shown(Some(old), Ok(new.clone())), Some(new));
    assert_eq!(usage_shown::<u8>(None, Err("down".to_string())), None);
}
