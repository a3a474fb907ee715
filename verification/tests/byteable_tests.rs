use dirspace::byteable::Byteable as DecimalByteable;
use dirspace::file_objects::Byteable as FlatByteable;
use dirspace::file_types::Byteable;

#[test]
fn byteable_test_byteable_output() {
    assert_eq!(DecimalByteable { val: 100 }.to_string(), "100 B");
    assert_eq!(DecimalByteable { val: 999 }.to_string(), "999 B");
    assert_eq!(DecimalByteable { val: 1000 }.to_string(), "1 KB");
    assert_eq!(DecimalByteable { val: 999999 }.to_string(), "999.99 KB");
    assert_eq!(DecimalByteable { val: 1000000 }.to_string(), "1 MB");
    assert_eq!(DecimalByteable { val: 999999999 }.to_string(), "999.99 MB");
    assert_eq!(DecimalByteable { val: 1000000000 }.to_string(), "1 GB");
}

#[test]
fn file_objects_test_byteable_output() {
    assert_eq!(FlatByteable { val: 100 }.to_string(), "100 B");
    assert_eq!(FlatByteable { val: 999 }.to_string(), "999 B");
    assert_eq!(FlatByteable { val: 1000 }.to_string(), "1000 B");
    assert_eq!(FlatByteable { val: 1024 }.to_string(), "1 KB");
    assert_eq!(FlatByteable { val: (1024 * 1024) - 1 }.to_string(), "1023.99 KB");
    assert_eq!(FlatByteable { val: 1024 * 1024 }.to_string(), "1 MB");
    assert_eq!(FlatByteable { val: (1024 * 1024 * 1024) - 1 }.to_string(), "1023.99 MB");
    assert_eq!(FlatByteable { val: 1024 * 1024 * 1024 }.to_string(), "1 GB");
}

#[test]
fn file_types_test_byteable_output() {
    assert_eq!(Byteable(100).to_string(), "100 B");
    assert_eq!(Byteable(999).to_string(), "999 B");
    assert_eq!(Byteable(1000).to_string(), "1000 B");
    assert_eq!(Byteable(1024).to_string(), "1 KB");
    assert_eq!(Byteable((1024 * 1024) - 1).to_string(), "1023.99 KB");
    assert_eq!(Byteable(1024 * 1024).to_string(), "1 MB");
    assert_eq!(Byteable((1024 * 1024 * 1024) - 1).to_string(), "1023.99 MB");
    assert_eq!(Byteable(1024 * 1024 * 1024).to_string(), "1 GB");
}

#[test]
fn terabyte_threshold() {
    assert_eq!(Byteable(1024 * 1024 * 1024 * 1024).to_string(), "1 TB");
    assert_eq!(Byteable((1024 * 1024 * 1024 * 1024) - 1).to_string(), "1023.99 GB");
}

#[test]
fn small_sizes_render_as_plain_bytes() {
    for v in [0_u64, 1, 9, 10, 42, 500, 999] {
        assert_eq!(Byteable(v).to_string(), format!("{} B", v));
        assert_eq!(DecimalByteable { val: v }.to_string(), format!("{} B", v));
    }
}

#[test]
fn the_largest_size_still_renders() {
    assert_eq!(Byteable(u64::MAX).to_string(), "16777215.99 TB");
}

#[test]
fn fraction_truncates_never_rounds_up() {
    // 1023.999 KB must not display as 1024.00 KB.
    assert_eq!(Byteable(1048575).to_string(), "1023.99 KB");
    // 1.5 KB exactly.
    assert_eq!(Byteable(1536).to_string(), "1.50 KB");
    // A single-hundredth fraction keeps its leading zero.
    assert_eq!(Byteable(1044).to_string(), "1.01 KB");
}
