use du_scan::size_class::{classify, format_filesize_type, SizeClass, EIB, KIB, MIB};

#[test]
fn classify_exact_kibibyte_stays_in_bytes() {
    assert_eq!(classify(1024), SizeClass::B);
    assert_eq!(classify(1025), SizeClass::KiB);
}

#[test]
fn classify_zero_and_small_totals() {
    assert_eq!(classify(0), SizeClass::B);
    assert_eq!(classify(1), SizeClass::B);
    assert_eq!(classify(KIB - 1), SizeClass::B);
}

#[test]
fn classify_unit_boundaries() {
    assert_eq!(classify(MIB), SizeClass::KiB);
    assert_eq!(classify(MIB + 1), SizeClass::MiB);
    assert_eq!(classify(1 << 30), SizeClass::MiB);
    assert_eq!(classify((1 << 30) + 1), SizeClass::GiB);
    assert_eq!(classify((1 << 40) + 1), SizeClass::TiB);
    assert_eq!(classify((1 << 50) + 1), SizeClass::PiB);
    assert_eq!(classify(EIB), SizeClass::PiB);
    assert_eq!(classify(EIB + 1), SizeClass::EiB);
    assert_eq!(classify(u64::MAX), SizeClass::EiB);
}

#[test]
fn classify_is_monotonic_on_samples() {
    let samples: Vec<u64> = vec![0, 1, 1023, 1024, 1025, 2048, MIB, MIB + 1, 1 << 35, EIB, u64::MAX];
    for i in 0..samples.len() {
        for j in i..samples.len() {
            assert!(classify(samples[i]).rank() <= classify(samples[j]).rank());
        }
    }
}

#[test]
fn filesize_type_labels() {
    assert_eq!(format_filesize_type(1024), "B");
    assert_eq!(format_filesize_type(2048), "KiB");
    assert_eq!(format_filesize_type(MIB + 1), "MiB");
    assert_eq!(format_filesize_type((1 << 30) + 5), "GiB");
    assert_eq!(format_filesize_type((1 << 40) + 5), "TiB");
    assert_eq!(format_filesize_type((1 << 50) + 5), "PiB");
    assert_eq!(format_filesize_type(u64::MAX), "EiB");
}
