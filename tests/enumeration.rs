use rusty_vainfo::{
    merge_profiles, negotiated_version, profiles_from_queries, sort_by_name, vendor_or_unknown,
    DriverError, Profile, ProfileQuery, STATUS_SUCCESS, STATUS_UNSUPPORTED_PROFILE,
};

fn query(name: &str, status: i32, entrypoints: &[&str]) -> ProfileQuery {
    ProfileQuery {
        name: name.to_string(),
        status,
        entrypoints: entrypoints.iter().map(|e| e.to_string()).collect(),
    }
}

fn profile(name: &str, entrypoints: &[&str]) -> Profile {
    Profile {
        name: name.to_string(),
        entrypoints: entrypoints.iter().map(|e| e.to_string()).collect(),
    }
}

fn by_name(mut v: Vec<Profile>) -> Vec<Profile> {
    v.sort_by(|a, b| a.name.cmp(&b.name));
    v
}

#[test]
fn two_codes_with_one_name_merge() {
    let queries = vec![
        query("VLD", STATUS_SUCCESS, &["VLD"]),
        query("VLD", STATUS_SUCCESS, &["EncSlice"]),
    ];
    let r = profiles_from_queries(STATUS_SUCCESS, queries).unwrap();
    assert_eq!(r, vec![profile("VLD", &["VLD", "EncSlice"])]);
}

#[test]
fn unsupported_profile_is_left_out() {
    let queries = vec![query("H264Main", STATUS_UNSUPPORTED_PROFILE, &[])];
    let r = profiles_from_queries(STATUS_SUCCESS, queries).unwrap();
    assert!(r.is_empty());
}

#[test]
fn unsupported_profile_beside_supported_ones() {
    let queries = vec![
        query("MPEG2Simple", STATUS_SUCCESS, &["VLD"]),
        query("H264Main", STATUS_UNSUPPORTED_PROFILE, &["VLD"]),
        query("VP9Profile0", 1, &["VLD"]),
        query("HEVCMain", STATUS_SUCCESS, &["VLD", "EncSlice"]),
    ];
    let r = by_name(profiles_from_queries(STATUS_SUCCESS, queries).unwrap());
    assert_eq!(
        r,
        vec![profile("HEVCMain", &["VLD", "EncSlice"]), profile("MPEG2Simple", &["VLD"])]
    );
}

#[test]
fn no_codes_give_an_empty_result() {
    let r = profiles_from_queries(STATUS_SUCCESS, Vec::new());
    assert_eq!(r, Ok(Vec::new()));
}

#[test]
fn failed_code_list_is_an_error() {
    let queries = vec![query("VLD", STATUS_SUCCESS, &["VLD"])];
    assert_eq!(profiles_from_queries(1, queries), Err(DriverError::Enumeration));
    assert_eq!(
        profiles_from_queries(STATUS_UNSUPPORTED_PROFILE, Vec::new()),
        Err(DriverError::Enumeration)
    );
}

#[test]
fn names_are_unique() {
    let queries = vec![
        query("A", STATUS_SUCCESS, &["x"]),
        query("B", STATUS_SUCCESS, &["y"]),
        query("A", STATUS_SUCCESS, &["z"]),
        query("B", STATUS_UNSUPPORTED_PROFILE, &["w"]),
        query("C", STATUS_SUCCESS, &[]),
        query("A", STATUS_SUCCESS, &["x"]),
    ];
    let r = merge_profiles(queries);
    let mut names: Vec<String> = r.iter().map(|p| p.name.clone()).collect();
    names.sort();
    assert_eq!(names, vec!["A".to_string(), "B".to_string(), "C".to_string()]);
    let r = by_name(r);
    assert_eq!(
        r,
        vec![profile("A", &["x", "z", "x"]), profile("B", &["y"]), profile("C", &[])]
    );
}

#[test]
fn enumerating_twice_gives_the_same_profiles() {
    let make = || {
        vec![
            query("VP8Version0_3", STATUS_SUCCESS, &["VLD"]),
            query("JPEGBaseline", STATUS_SUCCESS, &["VLD", "EncPicture"]),
            query("VP8Version0_3", STATUS_SUCCESS, &["EncSlice"]),
        ]
    };
    let a = by_name(profiles_from_queries(STATUS_SUCCESS, make()).unwrap());
    let b = by_name(profiles_from_queries(STATUS_SUCCESS, make()).unwrap());
    assert_eq!(a, b);
    assert_eq!(a.len(), 2);
}

#[test]
fn missing_vendor_string_is_unknown() {
    assert_eq!(vendor_or_unknown(None), "<unknown>");
}

#[test]
fn empty_vendor_string_is_unknown() {
    assert_eq!(vendor_or_unknown(Some(String::new())), "<unknown>");
}

#[test]
fn vendor_string_is_kept() {
    let s = "Intel iHD driver - 23.1.1".to_string();
    assert_eq!(vendor_or_unknown(Some(s.clone())), s);
}

#[test]
fn version_on_success() {
    assert_eq!(negotiated_version(STATUS_SUCCESS, 1, 20), Ok((1, 20)));
}

#[test]
fn version_on_refusal() {
    assert_eq!(negotiated_version(3, 1, 20), Err(DriverError::Init));
}

#[test]
fn sorts_by_name() {
    let v = vec![
        profile("VP9Profile0", &["VLD"]),
        profile("H264Main", &["VLD"]),
        profile("HEVCMain", &[]),
        profile("H264", &["EncSlice"]),
        profile("AV1Profile0", &["VLD"]),
    ];
    let r = sort_by_name(v);
    let names: Vec<&str> = r.iter().map(|p| p.name.as_str()).collect();
    assert_eq!(names, vec!["AV1Profile0", "H264", "H264Main", "HEVCMain", "VP9Profile0"]);
    assert_eq!(r[2], profile("H264Main", &["VLD"]));
}

#[test]
fn sort_compares_code_points() {
    let v = vec![profile("b", &[]), profile("B", &[]), profile("é", &[]), profile("", &[])];
    let r = sort_by_name(v);
    let names: Vec<&str> = r.iter().map(|p| p.name.as_str()).collect();
    assert_eq!(names, vec!["", "B", "b", "é"]);
}

#[test]
fn sort_of_nothing() {
    assert!(sort_by_name(Vec::new()).is_empty());
}
