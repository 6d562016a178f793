use tcping::resolve::{
    extract_target, parse_port, select_candidate, IpFamily, IpFamilyPreference, ResolutionError,
};

#[test]
fn single_colon_splits_host_and_port() {
    let t = extract_target(&b"10.0.0.1:9090".to_vec(), &b"80".to_vec()).unwrap();
    assert_eq!(t.host, b"10.0.0.1".to_vec());
    assert_eq!(t.port, 9090);
}

#[test]
fn single_colon_ignores_default_port() {
    let a = extract_target(&b"example.com:8080".to_vec(), &b"80".to_vec()).unwrap();
    let b = extract_target(&b"example.com:8080".to_vec(), &b"7".to_vec()).unwrap();
    assert_eq!(a.host, b"example.com".to_vec());
    assert_eq!(a.port, 8080);
    assert_eq!(b.host, b"example.com".to_vec());
    assert_eq!(b.port, 8080);
}

#[test]
fn bracketed_ipv6_with_port() {
    let t = extract_target(&b"[::1]:8080".to_vec(), &b"80".to_vec()).unwrap();
    assert_eq!(t.host, b"::1".to_vec());
    assert_eq!(t.port, 8080);
}

#[test]
fn bracketed_ipv6_with_port_link_local() {
    let t = extract_target(&b"[fe80::1]:22".to_vec(), &b"80".to_vec()).unwrap();
    assert_eq!(t.host, b"fe80::1".to_vec());
    assert_eq!(t.port, 22);
}

#[test]
fn bracketed_ipv6_without_port_uses_default() {
    let t = extract_target(&b"[::1]".to_vec(), &b"80".to_vec()).unwrap();
    assert_eq!(t.host, b"::1".to_vec());
    assert_eq!(t.port, 80);
}

#[test]
fn plain_hostname_uses_default_port() {
    let t = extract_target(&b"example.com".to_vec(), &b"80".to_vec()).unwrap();
    assert_eq!(t.host, b"example.com".to_vec());
    assert_eq!(t.port, 80);
}

#[test]
fn ipv4_literal_uses_default_port() {
    let t = extract_target(&b"10.0.0.1".to_vec(), &b"443".to_vec()).unwrap();
    assert_eq!(t.host, b"10.0.0.1".to_vec());
    assert_eq!(t.port, 443);
}

#[test]
fn bare_ipv6_literal_is_kept_whole() {
    let t = extract_target(&b"fe80::1".to_vec(), &b"80".to_vec()).unwrap();
    assert_eq!(t.host, b"fe80::1".to_vec());
    assert_eq!(t.port, 80);
}

#[test]
fn non_numeric_port_is_invalid() {
    let r = extract_target(&b"example.com:http".to_vec(), &b"80".to_vec());
    assert_eq!(r.unwrap_err(), ResolutionError::InvalidPort);
}

#[test]
fn out_of_range_port_is_invalid() {
    let r = extract_target(&b"example.com:65536".to_vec(), &b"80".to_vec());
    assert_eq!(r.unwrap_err(), ResolutionError::InvalidPort);
    let r = extract_target(&b"example.com:99999".to_vec(), &b"80".to_vec());
    assert_eq!(r.unwrap_err(), ResolutionError::InvalidPort);
}

#[test]
fn largest_port_is_accepted() {
    let t = extract_target(&b"example.com:65535".to_vec(), &b"80".to_vec()).unwrap();
    assert_eq!(t.port, 65535);
}

#[test]
fn empty_port_after_colon_is_invalid() {
    let r = extract_target(&b"example.com:".to_vec(), &b"80".to_vec());
    assert_eq!(r.unwrap_err(), ResolutionError::InvalidPort);
}

#[test]
fn invalid_default_port_is_reported() {
    let r = extract_target(&b"example.com".to_vec(), &b"notaport".to_vec());
    assert_eq!(r.unwrap_err(), ResolutionError::InvalidPort);
}

#[test]
fn parse_port_accepts_plus_and_leading_zeros() {
    assert_eq!(parse_port(&b"+443".to_vec()).unwrap(), 443);
    assert_eq!(parse_port(&b"0080".to_vec()).unwrap(), 80);
    assert_eq!(parse_port(&b"0".to_vec()).unwrap(), 0);
}

#[test]
fn parse_port_rejects_empty_and_lone_plus() {
    assert_eq!(
        parse_port(&b"".to_vec()).unwrap_err(),
        ResolutionError::InvalidPort
    );
    assert_eq!(
        parse_port(&b"+".to_vec()).unwrap_err(),
        ResolutionError::InvalidPort
    );
}

#[test]
fn ipv4_only_picks_first_ipv4_of_mixed_list() {
    let fams = vec![IpFamily::V6, IpFamily::V4, IpFamily::V6, IpFamily::V4];
    let i = select_candidate(&fams, IpFamilyPreference::IPv4Only).unwrap();
    assert_eq!(i, 1);
    assert_eq!(fams[i], IpFamily::V4);
}

#[test]
fn ipv4_only_fails_on_all_ipv6() {
    let fams = vec![IpFamily::V6, IpFamily::V6];
    let r = select_candidate(&fams, IpFamilyPreference::IPv4Only);
    assert_eq!(r.unwrap_err(), ResolutionError::NoMatchingAddress);
}

#[test]
fn ipv6_only_skips_ipv4_candidates() {
    let fams = vec![IpFamily::V4, IpFamily::V4, IpFamily::V6];
    let i = select_candidate(&fams, IpFamilyPreference::IPv6Only).unwrap();
    assert_eq!(i, 2);
}

#[test]
fn any_preference_takes_first_candidate() {
    let fams = vec![IpFamily::V6, IpFamily::V4];
    let i = select_candidate(&fams, IpFamilyPreference::Any).unwrap();
    assert_eq!(i, 0);
}

#[test]
fn empty_candidate_list_fails() {
    let fams: Vec<IpFamily> = Vec::new();
    let r = select_candidate(&fams, IpFamilyPreference::Any);
    assert_eq!(r.unwrap_err(), ResolutionError::NoMatchingAddress);
}
