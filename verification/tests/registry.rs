use mirrorscope::{select_decoder, select_decoder_for_binary, SemanticDecoder};

#[test]
fn selects_native_decoder_without_a_binary() {
    let decoder: Box<dyn SemanticDecoder> = select_decoder().decoder;
    drop(decoder);
}

#[test]
fn non_go_bytes_fall_through_to_native() {
    // Random non-object bytes are not a Go binary; must not panic and must
    // yield a usable (native) decoder.
    let decoder = select_decoder_for_binary(b"not an elf file at all").decoder;
    drop(decoder);
}
