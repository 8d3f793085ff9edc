use mirrorscope::async_rust::enumerate::tls::{align_up, static_tls_address, TlsVariant};

#[test]
fn aligns_up_to_power_of_two() {
    assert_eq!(align_up(16, 8), 16);
    assert_eq!(align_up(16, 32), 32);
    assert_eq!(align_up(17, 16), 32);
    assert_eq!(align_up(5, 1), 5);
}

#[test]
fn variant_i_matches_measured_aarch64_tokio_target() {
    // Measured live: tp = 0xffff841bd760, CONTEXT = 0xffff841bd770,
    // st_value = 0, PT_TLS align = 8 → TCB 16, offset +16.
    let addr = static_tls_address(TlsVariant::VariantI, 0xffff_841b_d760, 0, 8, 72);
    assert_eq!(addr, 0xffff_841b_d770);
}

#[test]
fn variant_i_respects_large_tls_alignment() {
    // A 64-byte-aligned TLS segment pushes the block past the 16-byte TCB.
    let addr = static_tls_address(TlsVariant::VariantI, 0x1000, 8, 64, 128);
    assert_eq!(addr, 0x1000 + 64 + 8);
}

#[test]
fn variant_ii_places_block_below_tp() {
    // x86-64: block of 72 bytes, align 16 → 80 below tp, then +offset.
    let addr = static_tls_address(TlsVariant::VariantII, 0x10000, 8, 16, 72);
    assert_eq!(addr, 0x10000 - 80 + 8);
}

#[test]
fn host_variant_is_defined() {
    assert_eq!(TlsVariant::host("x86_64"), TlsVariant::VariantII);
    assert_eq!(TlsVariant::host("aarch64"), TlsVariant::VariantI);
    assert_eq!(TlsVariant::host(""), TlsVariant::VariantI);
}
