use quantcast_exercise::most_active_cookie::max_occurence_cookies;
use quantcast_exercise::{Cookie, Date};

#[test]
fn most_active_cookie_integration() {
    let cookies = max_occurence_cookies(
        r#"cookie,timestamp
AtY0laUfhglK3lC7,2018-12-09T14:19:00+00:00
SAZuXPGUrfbcn5UA,2018-12-09T10:13:00+00:00
5UAVanZf6UtGyKVS,2018-12-09T07:25:00+00:00
AtY0laUfhglK3lC7,2018-12-09T06:19:00+00:00
SAZuXPGUrfbcn5UA,2018-12-08T22:03:00+00:00
4sMM2LxV07bPJzwf,2018-12-08T21:30:00+00:00
fbcn5UAVanZf6UtG,2018-12-08T09:30:00+00:00
4sMM2LxV07bPJzwf,2018-12-07T23:30:00+00:00"#,
        Date {
            year: 2018,
            month: 12,
            day: 8,
        },
    )
    .unwrap();

    let expected = vec!["SAZuXPGUrfbcn5UA", "4sMM2LxV07bPJzwf", "fbcn5UAVanZf6UtG"];
    assert_eq!(cookies.len(), expected.len());
    for name in expected {
        assert!(cookies.iter().any(|c| c == &Cookie(name.to_owned())));
    }
}
