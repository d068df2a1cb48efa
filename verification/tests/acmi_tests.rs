use regex::Regex;
use tacview_stats::acmi::{match_object, match_object_id, match_pilot, match_telemetry};
use tacview_stats::text::chars_of;

const PILOT: &str = r"^([0-9a-f]+),T=([0-9\.-]+)\|([0-9\.-]+)\|([0-9\.-]+)[0-9\.|-]+,Type=([^,]+),Name=([^,]+),Pilot=([^,]+)";
const WEAPON: &str = r"^([0-9a-f]+),T=([0-9\.-]+)\|([0-9\.-]+)\|([0-9\.-]+)[0-9\.|-]+,Type=([^,]+),Name=([^,]+)";
const RELAXED: &str = r"^([0-9a-f]+),";

const LINES: &[&str] = &[
    "102,T=4.1|5.2|1000|0|0|0,Type=Air+FixedWing,Name=F-16C,Pilot=nima3333,Group=A",
    "102,T=4.1|5.2|1000|0|0|0,Type=Air+FixedWing,Name=F-16C,Pilot=nima3333",
    "102,T=-4.1|5.2|1000.5|,Type=Air,Name=F-16C,Pilot=x",
    "102,T=4.1|5.2|1000,Type=Air,Name=F-16C,Pilot=x",
    "102,T=4.1|5.2|10,Type=Air,Name=F-16C,Pilot=x",
    "102,T=4.1|5.2|1,Type=Air,Name=F-16C,Pilot=x",
    "102,T=4.1|5.2||1,Type=Air,Name=F-16C,Pilot=x",
    "102,T=4.1|5.2|1|,Type=Air,Name=F-16C,Pilot=x",
    "102,T=4.1|5.2|7.5|-|,Type=Air,Name=F-16C,Pilot=x",
    "102,T=4.1|5.2|7.5--|,Type=Air,Name=F-16C,Pilot=x",
    "a0f,T=1.2.3|--|9|9|9,Type=Weapon+Missile,Name=AIM-120C",
    "a0f,T=1|2|3|4,Type=Weapon+Missile,Name=AIM-120C,Color=Red",
    "a0f,T=1|2|3|4,Type=Weapon,Name=",
    "a0f,T=1|2|3|4,Type=,Name=X",
    "A0F,T=1|2|3|4,Type=Weapon,Name=X",
    ",T=1|2|3|4,Type=Weapon,Name=X",
    "a0f,T=|2|3|4,Type=Weapon,Name=X",
    "a0f,T=1|2|3|4|Type=Weapon,Name=X",
    "a0f,T=1|2|3|4,Type=Wé,Name=Ünï,Pilot=Zoë",
    "a0f,T=1|2|3|4,Type=W,Name=N,Pilot=",
    "7,T=1|2|3|4,Type=W,Name=N,Pilot=P,Pilot=Q",
    "1,PilotHead=x",
    "1f,",
    "1f",
    "#12.5",
    "-1f",
    "",
];

fn group_texts(line: &str, spans: &[(usize, usize)]) -> Vec<String> {
    let v: Vec<char> = line.chars().collect();
    spans.iter().map(|&(a, b)| v[a..b].iter().collect()).collect()
}

fn regex_texts(re: &Regex, line: &str) -> Option<Vec<String>> {
    re.captures(line).map(|caps| {
        (1..caps.len()).map(|i| caps.get(i).map_or(String::new(), |m| m.as_str().to_string())).collect()
    })
}

#[test]
fn pilot_matcher_agrees_with_regex() {
    let re = Regex::new(PILOT).unwrap();
    for line in LINES {
        let mine = match_pilot(&chars_of(line)).map(|g| group_texts(line, &g));
        assert_eq!(mine, regex_texts(&re, line), "{line:?}");
    }
}

#[test]
fn object_matcher_agrees_with_regex() {
    let re = Regex::new(WEAPON).unwrap();
    for line in LINES {
        let mine = match_object(&chars_of(line)).map(|g| group_texts(line, &g));
        assert_eq!(mine, regex_texts(&re, line), "{line:?}");
    }
}

#[test]
fn object_id_matcher_agrees_with_regex() {
    let re = Regex::new(RELAXED).unwrap();
    for line in LINES {
        let mine = match_object_id(&chars_of(line)).map(|e| group_texts(line, &[(0, e)]));
        assert_eq!(mine, regex_texts(&re, line), "{line:?}");
    }
}

#[test]
fn telemetry_matcher_agrees_with_regex_for_its_id() {
    let lines = [
        "102,T=4.1|5.2|1000|0|0",
        "102,T=|5.2|",
        "102,T=||",
        "102,T=4.1|5.2",
        "102,T=-4.1|5.2|1000",
        "102,T=4.1|5.2|1.2.3|",
        "102,T=4.1|5.2|abc",
        ",T=1|2|3",
        "0102,T=1|2|3",
        "ab,T=1|2|3",
    ];
    for line in lines {
        let mine = match_telemetry(&chars_of(line)).map(|g| group_texts(line, &g));
        let id = line.split(',').next().unwrap();
        let re = Regex::new(&format!(r"^({}),T=([0-9\.]*)\|([0-9\.]*)\|([0-9\.]*)", regex::escape(id)))
            .unwrap();
        assert_eq!(mine, regex_texts(&re, line), "{line:?}");
    }
}

#[test]
fn pilot_groups_name_every_field() {
    let line = "102,T=4.1|5.2|1000|0|0|0,Type=Air+FixedWing,Name=F-16C,Pilot=nima3333,Group=A";
    let g = match_pilot(&chars_of(line)).unwrap();
    assert_eq!(
        group_texts(line, &g),
        vec!["102", "4.1", "5.2", "1000", "Air+FixedWing", "F-16C", "nima3333"]
    );
}

#[test]
fn fourth_field_leaves_one_character_for_the_rest() {
    let line = "1,T=1|2|345,Type=A,Name=B";
    let g = match_object(&chars_of(line)).unwrap();
    assert_eq!(group_texts(line, &g)[3], "34");
    assert!(match_object(&chars_of("1,T=1|2|3,Type=A,Name=B")).is_none());
}
