use wn_alerts::monitor::incident::{format_hex16, Incident};

fn incident(title: &str, description: &str, occurred_at: &str) -> Incident {
    Incident {
        provider: "test".into(),
        id: "same-id".into(),
        title: title.into(),
        description: description.into(),
        link: "https://example.com".into(),
        occurred_at: occurred_at.into(),
    }
}

#[test]
fn fingerprint_is_stable_for_identical_content() {
    let a = incident("Investigating", "Looking into it", "Sun, 31 May 2026 06:00:00 GMT");
    let b = incident("Investigating", "Looking into it", "Sun, 31 May 2026 06:00:00 GMT");
    assert_eq!(a.fingerprint(), b.fingerprint());
}

#[test]
fn fingerprint_changes_when_description_changes() {
    let investigating = incident("TLS issue", "Investigating - ...", "Sun, 31 May 2026 03:16:00 GMT");
    let identified = incident(
        "TLS issue",
        "Identified - a fix is being implemented",
        "Sun, 31 May 2026 06:41:00 GMT",
    );
    assert_ne!(
        investigating.fingerprint(),
        identified.fingerprint(),
        "a new status update must produce a different fingerprint"
    );
}

#[test]
fn fingerprint_ignores_non_content_fields() {
    let mut a = incident("Title", "Body", "Sun, 31 May 2026 06:00:00 GMT");
    let mut b = a.clone();
    b.provider = "different".into();
    b.id = "different".into();
    b.link = "https://other.example.com".into();
    a.provider = "x".into();
    assert_eq!(a.fingerprint(), b.fingerprint());
}

#[test]
fn fingerprint_respects_field_boundaries() {
    let split_a = incident("ab", "c", "");
    let split_b = incident("a", "bc", "");
    assert_ne!(split_a.fingerprint(), split_b.fingerprint());
}

fn reference_fnv(parts: &[&str]) -> u64 {
    let mut hash: u64 = 0xcbf2_9ce4_8422_2325;
    for part in parts {
        for &b in part.as_bytes() {
            hash ^= b as u64;
            hash = hash.wrapping_mul(0x0000_0100_0000_01b3);
        }
        hash ^= 0xff;
        hash = hash.wrapping_mul(0x0000_0100_0000_01b3);
    }
    hash
}

#[test]
fn fingerprint_is_fnv1a_in_sixteen_hex_digits() {
    let i = incident("Titel é", "Beschreibung", "2026");
    let expected = format!("{:016x}", reference_fnv(&["Titel é", "Beschreibung", "2026"]));
    assert_eq!(i.fingerprint(), expected);
    assert_eq!(i.fingerprint().len(), 16);
}

#[test]
fn hex_formatting_pads_with_zeros() {
    assert_eq!(format_hex16(0), "0000000000000000");
    assert_eq!(format_hex16(0xab), "00000000000000ab");
    assert_eq!(format_hex16(u64::MAX), "ffffffffffffffff");
}
