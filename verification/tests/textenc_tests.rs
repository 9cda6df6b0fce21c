use savi::audio::{Audio, AudioBackend, DeviceKind};
use savi::textenc::{bytes_eq, pct_decode, pct_encode, str_eq, u64_to_dec};

#[test]
fn decimal_rendering_is_exact() {
    assert_eq!(u64_to_dec(0), b"0".to_vec());
    assert_eq!(u64_to_dec(7), b"7".to_vec());
    assert_eq!(u64_to_dec(10), b"10".to_vec());
    assert_eq!(u64_to_dec(90210), b"90210".to_vec());
    assert_eq!(u64_to_dec(u64::MAX), b"18446744073709551615".to_vec());
}

#[test]
fn percent_encoding_escapes_reserved_bytes() {
    assert_eq!(pct_encode(&b"hello world".to_vec()), b"hello%20world".to_vec());
    assert_eq!(pct_encode(&b"a-b.c_d~e".to_vec()), b"a-b.c_d~e".to_vec());
    assert_eq!(pct_encode(&b"100%".to_vec()), b"100%25".to_vec());
    assert_eq!(pct_encode(&vec![0xC3, 0xA9]), b"%C3%A9".to_vec());
}

#[test]
fn percent_decoding_inverts_encoding() {
    for raw in [
        b"plain".to_vec(),
        b"with space & punctuation!".to_vec(),
        vec![0, 1, 2, 0xFF, 0x25, 0x20],
    ] {
        assert_eq!(pct_decode(&pct_encode(&raw)), raw);
    }
}

#[test]
fn percent_decoding_accepts_lowercase_hex() {
    assert_eq!(pct_decode(&b"a%2fb".to_vec()), b"a/b".to_vec());
}

#[test]
fn malformed_escapes_pass_through() {
    assert_eq!(pct_decode(&b"100%".to_vec()), b"100%".to_vec());
    assert_eq!(pct_decode(&b"%zz!".to_vec()), b"%zz!".to_vec());
    assert_eq!(pct_decode(&b"%2".to_vec()), b"%2".to_vec());
}

#[test]
fn byte_and_string_equality() {
    assert!(bytes_eq(b"abc", b"abc"));
    assert!(!bytes_eq(b"abc", b"abd"));
    assert!(!bytes_eq(b"abc", b"ab"));
    assert!(str_eq("caf\u{E9}", "caf\u{E9}"));
    assert!(!str_eq("caf\u{E9}", "cafe"));
}

#[test]
fn backend_names_map_to_backends() {
    assert_eq!(Audio::backend_from_text(String::from("PulseAudio")), AudioBackend::PulseAudio);
    assert_eq!(Audio::backend_from_text(String::from("ALSA")), AudioBackend::Alsa);
    assert_eq!(Audio::backend_from_text(String::from("DirectSound")), AudioBackend::DSound);
    assert_eq!(Audio::backend_from_text(String::from("DSound")), AudioBackend::DSound);
    assert_eq!(Audio::backend_from_text(String::from("sndio")), AudioBackend::Sndio);
    assert_eq!(Audio::backend_from_text(String::from("whatever")), AudioBackend::Null);
    assert_eq!(Audio::backend_from_text(String::from("pulseaudio")), AudioBackend::Null);
}

#[test]
fn device_lookup_finds_the_last_match() {
    let names = vec![
        String::from("Mic A"),
        String::from("Speakers"),
        String::from("Mic A"),
    ];
    assert_eq!(Audio::find_device(&names, &String::from("Mic A")), Some(2));
    assert_eq!(Audio::find_device(&names, &String::from("Speakers")), Some(1));
    assert_eq!(Audio::find_device(&names, &String::from("Headset")), None);
    assert_ne!(DeviceKind::Capture, DeviceKind::Playback);
}
