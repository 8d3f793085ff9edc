//! Whole binaries, assembled byte by byte: a small ELF file with a symbol table,
//! program headers and DWARF sections, read end to end.
use std::collections::{BTreeMap, HashMap};

use mirrorscope::async_rust::dwarf as tokio_dwarf;
use mirrorscope::async_rust::enumerate::dwarf as enumerate_dwarf;
use mirrorscope::async_rust::enumerate::tls::TlsVariant;
use mirrorscope::async_rust::enumerate::{EnumerationPlan, TokioRuntimeLayout};
use mirrorscope::async_rust::layout::{ChildRef, VariantKind};
use mirrorscope::async_rust::{AsyncDecodeError, EnumerateError, RustcVersion, TokioDecoder};
use mirrorscope::async_rust::TokioVersion;
use mirrorscope::debug_info::object_file;
use mirrorscope::debug_info::zstandard;
use mirrorscope::go::dwarf as go_dwarf;
use mirrorscope::go::{GoDecodeError, GoVersion, GoroutineDecoder, LayoutSource};
use mirrorscope::model::{SourceLocation, TaskId, TaskKind};
use mirrorscope::process_view::{LiveProcessView, PhysicalFrame, Registers, ThreadId, Unplaced};
use mirrorscope::{select_decoder_for_binary, DecoderError, ProcessView};

// --- An assembler ----------------------------------------------------------

#[derive(Clone)]
enum Form {
    Text(&'static str),
    Number(u64),
    Ref(&'static str),
    Expr(Vec<u8>),
    Address(u64),
    Offset(u32),
    /// An index into a table of strings.
    TextIndex(u64),
    /// An index into a table of addresses.
    AddressIndex(u64),
}

struct Assembler {
    labels: HashMap<&'static str, u32>,
    abbrev: Vec<u8>,
    info: Vec<u8>,
    code: u8,
}

impl Assembler {
    fn entry(&mut self, label: &'static str, tag: u8, open: bool, attrs: &[(u8, Form)]) {
        self.code += 1;
        self.labels.insert(label, self.info.len() as u32);
        self.abbrev
            .extend_from_slice(&[self.code, tag, u8::from(open)]);
        self.info.push(self.code);
        for (name, form) in attrs {
            self.abbrev.push(*name);
            match form {
                Form::Text(s) => {
                    self.abbrev.push(0x08);
                    self.info.extend_from_slice(s.as_bytes());
                    self.info.push(0);
                }
                Form::Number(n) => {
                    self.abbrev.push(0x0f);
                    self.info.extend_from_slice(&uleb(*n));
                }
                Form::Ref(label) => {
                    self.abbrev.push(0x13);
                    let target = self.labels.get(label).copied().unwrap_or(0);
                    self.info.extend_from_slice(&target.to_le_bytes());
                }
                Form::Expr(bytes) => {
                    self.abbrev.push(0x18);
                    self.info.push(bytes.len() as u8);
                    self.info.extend_from_slice(bytes);
                }
                Form::Address(a) => {
                    self.abbrev.push(0x01);
                    self.info.extend_from_slice(&a.to_le_bytes());
                }
                Form::Offset(o) => {
                    self.abbrev.push(0x17);
                    self.info.extend_from_slice(&o.to_le_bytes());
                }
                Form::TextIndex(n) => {
                    self.abbrev.push(0x1a);
                    self.info.extend_from_slice(&uleb(*n));
                }
                Form::AddressIndex(n) => {
                    self.abbrev.push(0x1b);
                    self.info.extend_from_slice(&uleb(*n));
                }
            }
        }
        self.abbrev.extend_from_slice(&[0, 0]);
    }

    fn leaf(&mut self, tag: u8, attrs: &[(u8, Form)]) {
        self.entry("", tag, false, attrs);
    }

    fn close(&mut self) {
        self.info.push(0);
    }
}

fn uleb(mut n: u64) -> Vec<u8> {
    let mut out = Vec::new();
    loop {
        let low = (n & 0x7f) as u8;
        n >>= 7;
        if n == 0 {
            out.push(low);
            return out;
        }
        out.push(low | 0x80);
    }
}

/// One unit: its `.debug_abbrev` and `.debug_info`. Assembled twice, so that an
/// entry can refer to a later one.
fn unit(build: fn(&mut Assembler)) -> (Vec<u8>, Vec<u8>) {
    let mut labels = HashMap::new();
    let mut sections = (Vec::new(), Vec::new());
    for _ in 0..2 {
        let mut a = Assembler {
            labels,
            abbrev: Vec::new(),
            info: vec![0, 0, 0, 0, 4, 0, 0, 0, 0, 0, 8],
            code: 0,
        };
        build(&mut a);
        let length = a.info.len() as u32 - 4;
        a.info[0..4].copy_from_slice(&length.to_le_bytes());
        a.abbrev.push(0);
        labels = a.labels;
        sections = (a.abbrev, a.info);
    }
    sections
}

/// A line program that only names one file.
fn line_section(file: &str) -> Vec<u8> {
    let mut header = vec![1u8, 1, 0xfb, 14, 1, 0];
    header.extend_from_slice(file.as_bytes());
    header.extend_from_slice(&[0, 0, 0, 0, 0]);
    let mut out = Vec::new();
    out.extend_from_slice(&(2 + 4 + header.len() as u32).to_le_bytes());
    out.extend_from_slice(&2u16.to_le_bytes());
    out.extend_from_slice(&(header.len() as u32).to_le_bytes());
    out.extend_from_slice(&header);
    out
}

#[derive(Default)]
struct Image {
    sections: Vec<(&'static str, Vec<u8>)>,
    symbols: Vec<(&'static str, u64, bool)>,
    dynamic: Vec<(&'static str, u64, bool)>,
    /// Type, address, size in memory, alignment.
    segments: Vec<(u32, u64, u64, u64)>,
    trailer: Vec<u8>,
    /// The sections that are compressed.
    compressed: Vec<&'static str>,
}

fn symbol_table(symbols: &[(&'static str, u64, bool)]) -> (Vec<u8>, Vec<u8>) {
    let mut table = vec![0u8; 24];
    let mut names = vec![0u8];
    for (name, value, is_tls) in symbols {
        table.extend_from_slice(&(names.len() as u32).to_le_bytes());
        table.push(0x10 | if *is_tls { 6 } else { 1 });
        table.push(0);
        table.extend_from_slice(&1u16.to_le_bytes());
        table.extend_from_slice(&value.to_le_bytes());
        table.extend_from_slice(&8u64.to_le_bytes());
        names.extend_from_slice(name.as_bytes());
        names.push(0);
    }
    (table, names)
}

impl Image {
    fn with_unit(mut self, build: fn(&mut Assembler)) -> Self {
        let (abbrev, info) = unit(build);
        self.sections.push((".debug_abbrev", abbrev));
        self.sections.push((".debug_info", info));
        self
    }

    fn build(&self) -> Vec<u8> {
        let mut out = vec![0u8; 64 + 56 * self.segments.len()];
        out[0..16].copy_from_slice(&[0x7f, b'E', b'L', b'F', 2, 1, 1, 0, 0, 0, 0, 0, 0, 0, 0, 0]);
        out[16..18].copy_from_slice(&2u16.to_le_bytes());
        out[18..20].copy_from_slice(&0x3eu16.to_le_bytes());
        out[20..24].copy_from_slice(&1u32.to_le_bytes());
        out[32..40].copy_from_slice(&64u64.to_le_bytes());
        out[52..54].copy_from_slice(&64u16.to_le_bytes());
        out[54..56].copy_from_slice(&56u16.to_le_bytes());
        out[56..58].copy_from_slice(&(self.segments.len() as u16).to_le_bytes());
        out[58..60].copy_from_slice(&64u16.to_le_bytes());
        for (i, (kind, vaddr, memsz, align)) in self.segments.iter().enumerate() {
            let at = 64 + 56 * i;
            out[at..at + 4].copy_from_slice(&kind.to_le_bytes());
            out[at + 16..at + 24].copy_from_slice(&vaddr.to_le_bytes());
            out[at + 40..at + 48].copy_from_slice(&memsz.to_le_bytes());
            out[at + 48..at + 56].copy_from_slice(&align.to_le_bytes());
        }
        let mut all: Vec<(&'static str, u32, Vec<u8>, u32, u64)> = Vec::new();
        for (name, data) in &self.sections {
            all.push((name, 1, data.clone(), 0, 0));
        }
        let (table, names) = symbol_table(&self.symbols);
        let strings = all.len() as u32 + 2;
        all.push((".symtab", 2, table, strings, 24));
        all.push((".strtab", 3, names, 0, 0));
        let (table, names) = symbol_table(&self.dynamic);
        let strings = all.len() as u32 + 2;
        all.push((".dynsym", 11, table, strings, 24));
        all.push((".dynstr", 3, names, 0, 0));
        let mut names = vec![0u8];
        let mut headers = vec![0u8; 64];
        all.push((".shstrtab", 3, Vec::new(), 0, 0));
        let count = all.len() as u16 + 1;
        for (name, kind, data, link, entry_size) in &all {
            let name_at = names.len() as u32;
            names.extend_from_slice(name.as_bytes());
            names.push(0);
            let data = if *name == ".shstrtab" { &names } else { data };
            let mut header = [0u8; 64];
            header[0..4].copy_from_slice(&name_at.to_le_bytes());
            header[4..8].copy_from_slice(&kind.to_le_bytes());
            let flags = if self.compressed.contains(name) { 0x800u64 } else { 0 };
            header[8..16].copy_from_slice(&flags.to_le_bytes());
            header[24..32].copy_from_slice(&(out.len() as u64).to_le_bytes());
            header[32..40].copy_from_slice(&(data.len() as u64).to_le_bytes());
            header[40..44].copy_from_slice(&link.to_le_bytes());
            header[44..48].copy_from_slice(&u32::from(*kind == 2 || *kind == 11).to_le_bytes());
            header[56..64].copy_from_slice(&entry_size.to_le_bytes());
            headers.extend_from_slice(&header);
            out.extend_from_slice(data);
        }
        let at = out.len() as u64;
        out[40..48].copy_from_slice(&at.to_le_bytes());
        out[60..62].copy_from_slice(&count.to_le_bytes());
        out[62..64].copy_from_slice(&(count - 1).to_le_bytes());
        out.extend_from_slice(&headers);
        out.extend_from_slice(&self.trailer);
        out
    }
}

const CU: u8 = 0x11;
const STRUCT: u8 = 0x13;
const MEMBER: u8 = 0x0d;
const VARIABLE: u8 = 0x34;
const NAMESPACE: u8 = 0x39;
const VARIANT_PART: u8 = 0x33;
const VARIANT: u8 = 0x19;
const SUBPROGRAM: u8 = 0x2e;
const BASE: u8 = 0x24;

fn name(s: &'static str) -> (u8, Form) {
    (0x03, Form::Text(s))
}

fn at_offset(n: u64) -> (u8, Form) {
    (0x38, Form::Number(n))
}

fn of_type(label: &'static str) -> (u8, Form) {
    (0x49, Form::Ref(label))
}

fn sized(n: u64) -> (u8, Form) {
    (0x0b, Form::Number(n))
}

// --- Go --------------------------------------------------------------------

fn go_unit(a: &mut Assembler) {
    a.entry("cu", CU, true, &[name("runtime")]);
    a.entry("g", STRUCT, true, &[name("runtime.g")]);
    for (field, offset) in [
        ("stack", 0u64),
        ("sched", 56),
        ("atomicstatus", 144),
        ("goid", 152),
        ("waitreason", 176),
        ("gopc", 280),
        ("startpc", 296),
        ("m", 48),
        ("parentGoid", 272),
    ] {
        a.leaf(MEMBER, &[name(field), at_offset(offset)]);
    }
    a.close();
    a.entry("gobuf", STRUCT, true, &[name("runtime.gobuf")]);
    a.leaf(MEMBER, &[name("sp"), at_offset(0)]);
    a.leaf(MEMBER, &[name("pc"), at_offset(8)]);
    a.close();
    a.entry("stack", STRUCT, true, &[name("runtime.stack")]);
    a.leaf(MEMBER, &[name("lo"), at_offset(0)]);
    a.leaf(MEMBER, &[name("hi"), at_offset(8)]);
    a.close();
    a.entry("m", STRUCT, true, &[name("runtime.m")]);
    a.leaf(MEMBER, &[name("procid"), at_offset(72)]);
    a.close();
    let mut location = vec![0x03];
    location.extend_from_slice(&0x5000u64.to_le_bytes());
    a.leaf(VARIABLE, &[name("runtime.allglen"), (0x02, Form::Expr(location))]);
    a.leaf(VARIABLE, &[name("local"), (0x02, Form::Expr(vec![0x91, 0x10]))]);
    a.close();
}

fn go_image() -> Vec<u8> {
    Image {
        symbols: vec![("runtime.main", 0x100, false), ("runtime.allgs", 0x4000, false)],
        ..Image::default()
    }
    .with_unit(go_unit)
    .build()
}

#[test]
fn go_layout_comes_from_debug_information_and_symbols() {
    let image = go_image();
    assert!(go_dwarf::is_go_object(&image));
    let layout = go_dwarf::load_layout(&image).expect("layout");
    assert_eq!(layout.ptr_size, 8);
    assert_eq!(layout.allgs_addr, 0x4000);
    assert_eq!(layout.allglen_addr, Some(0x5000));
    assert_eq!(layout.load_bias, 0);
    assert_eq!(layout.source, LayoutSource::Dwarf);
    assert_eq!(layout.m_procid, Some(72));
    assert_eq!(layout.g.goid, 152);
    assert_eq!(layout.g.atomicstatus, 144);
    assert_eq!(layout.g.waitreason, 176);
    assert_eq!((layout.g.stack_lo, layout.g.stack_hi), (0, 8));
    assert_eq!((layout.g.sched_sp, layout.g.sched_pc), (56, 64));
    assert_eq!((layout.g.gopc, layout.g.startpc), (280, 296));
    assert_eq!(layout.g.m, 48);
    assert_eq!(layout.g.parent_goid, Some(272));
    let decoder = GoroutineDecoder::from_binary(&image).expect("decoder");
    assert_eq!(decoder.layout().allgs_addr, 0x4000);
}

#[test]
fn go_layout_without_debug_information_is_vendored() {
    let mut image = Image {
        sections: vec![(".go.buildinfo", vec![1, 2, 3])],
        symbols: vec![("runtime.allgs", 0x4000, false)],
        ..Image::default()
    };
    image.trailer = b"xx go1.24.13 and more text".to_vec();
    let layout = go_dwarf::load_layout(&image.build()).expect("layout");
    assert_eq!(
        layout.source,
        LayoutSource::Vendored(GoVersion::new(1, 24, 13))
    );
    assert_eq!(layout.allglen_addr, None);

    image.trailer = b"xx go1.99.1 and more text".to_vec();
    let error = go_dwarf::load_layout(&image.build()).expect_err("no table");
    assert_eq!(
        error.message(),
        "could not resolve runtime.g offsets: no vendored offset table for go1.99"
    );

    image.trailer = Vec::new();
    assert!(matches!(
        go_dwarf::load_layout(&image.build()),
        Err(GoDecodeError::LayoutUnresolved(_))
    ));
}

#[test]
fn go_layout_declines_what_it_cannot_place() {
    let only_section = Image {
        sections: vec![(".go.buildinfo", vec![1, 2, 3])],
        ..Image::default()
    };
    assert!(matches!(
        go_dwarf::load_layout(&only_section.build()),
        Err(GoDecodeError::AllgsNotFound)
    ));
    assert!(matches!(
        go_dwarf::load_layout(&Image::default().build()),
        Err(GoDecodeError::NotGoBinary)
    ));
    assert!(matches!(
        go_dwarf::load_layout(b"no object"),
        Err(GoDecodeError::Object(_))
    ));
    let mut broken = Image {
        symbols: vec![("runtime.allgs", 0x4000, false)],
        ..Image::default()
    };
    broken.sections.push((".debug_info", vec![40, 0, 0, 0, 4, 0]));
    assert!(matches!(
        go_dwarf::load_layout(&broken.build()),
        Err(GoDecodeError::Dwarf(_))
    ));
}

// --- Tokio -----------------------------------------------------------------

fn tokio_unit(a: &mut Assembler) {
    a.entry(
        "cu",
        CU,
        true,
        &[
            (0x25, Form::Text("clang LLVM (rustc version 1.83.0 (90b35a623 2024-11-26))")),
            (0x10, Form::Offset(0)),
        ],
    );
    a.entry("u8", BASE, false, &[name("u8"), sized(1)]);
    a.entry("app", NAMESPACE, true, &[name("app")]);
    a.entry("sleeper", NAMESPACE, true, &[name("sleeper")]);
    a.entry("coroutine", STRUCT, true, &[name("{async_fn_env#0}"), sized(24)]);
    a.entry("part", VARIANT_PART, true, &[(0x15, Form::Ref("state"))]);
    a.entry("state", MEMBER, false, &[name("__state"), of_type("u8"), at_offset(20)]);
    a.entry("v0", VARIANT, true, &[(0x16, Form::Number(0))]);
    a.leaf(MEMBER, &[name("0"), of_type("unresumed"), at_offset(0)]);
    a.close();
    a.entry("v3", VARIANT, true, &[(0x16, Form::Number(3))]);
    a.leaf(
        MEMBER,
        &[
            name("3"),
            of_type("suspend"),
            at_offset(0),
            (0x3a, Form::Number(1)),
            (0x3b, Form::Number(42)),
        ],
    );
    a.close();
    a.close();
    a.entry("unresumed", STRUCT, false, &[name("Unresumed"), sized(24)]);
    a.entry("suspend", STRUCT, true, &[name("Suspend0"), sized(24)]);
    a.leaf(MEMBER, &[name("__awaitee"), of_type("sleep"), at_offset(8)]);
    a.leaf(MEMBER, &[name("other"), of_type("block"), at_offset(16)]);
    a.close();
    a.close();
    a.entry("block", STRUCT, true, &[name("{async_block_env#0}"), sized(4)]);
    a.entry("block part", VARIANT_PART, true, &[(0x15, Form::Ref("block state"))]);
    a.entry("block state", MEMBER, false, &[name("__state"), of_type("u8"), at_offset(0)]);
    a.entry("b0", VARIANT, true, &[(0x16, Form::Number(0))]);
    a.leaf(MEMBER, &[name("0"), of_type("unresumed"), at_offset(0)]);
    a.close();
    a.close();
    a.close();
    a.close();
    a.close();
    a.entry("time", NAMESPACE, true, &[name("time")]);
    a.entry("sleep", STRUCT, false, &[name("Sleep"), sized(8)]);
    a.close();
    a.leaf(
        SUBPROGRAM,
        &[
            name("poll<app::sleeper::{async_fn_env#0}, alloc::sync::Arc<H>>"),
            (0x11, Form::Address(0x7700)),
        ],
    );
    a.leaf(SUBPROGRAM, &[name("poll<declared::only, S>")]);
    a.close();
}

fn tokio_parts() -> Image {
    Image {
        sections: vec![(".debug_line", line_section("src/main.rs"))],
        symbols: vec![("_ZN5tokio7runtime7context7CONTEXT17habcE", 0x20, true)],
        segments: vec![(1, 0x4000, 0x100, 0x1000), (1, 0x2000, 0x100, 0x1000), (7, 0, 72, 16)],
        trailer: b"/registry/src/tokio-1.44.2/src/lib.rs and some more".to_vec(),
        ..Image::default()
    }
    .with_unit(tokio_unit)
}

#[test]
fn coroutine_layouts_come_from_debug_information() {
    let image = tokio_parts().build();
    assert!(tokio_dwarf::is_tokio_object(&image));
    let (layouts, version) = tokio_dwarf::load_layouts(&image).expect("layouts");
    assert_eq!(version, RustcVersion::new(1, 83, 0));
    assert_eq!(layouts.len(), 2);
    let layout = layouts
        .get("app::sleeper::{async_fn_env#0}")
        .expect("the coroutine");
    assert_eq!(layout.byte_size, 24);
    assert_eq!(layout.discr_offset, 20);
    assert_eq!(layout.discr_size, 1);
    assert_eq!(layout.variants.len(), 2);
    assert_eq!(layout.variants[&0].kind, VariantKind::Unresumed);
    let parked = &layout.variants[&3];
    assert_eq!(parked.kind, VariantKind::Suspend(0));
    assert_eq!(
        parked.await_location,
        Some(SourceLocation {
            path: "src/main.rs".to_string(),
            line: 42,
            column: 0,
        })
    );
    assert_eq!(parked.awaitee, Some(ChildRef::new(8, "time::Sleep")));
    assert_eq!(
        parked.children,
        vec![ChildRef::new(16, "app::sleeper::{async_block_env#0}")]
    );
}

fn unit_of_old_compiler(a: &mut Assembler) {
    a.leaf(CU, &[(0x25, Form::Text("clang LLVM (rustc version 1.40.0 (abc))"))]);
}

fn unit_without_coroutines(a: &mut Assembler) {
    a.leaf(CU, &[(0x25, Form::Text("clang LLVM (rustc version 1.83.0 (abc))"))]);
}

fn unit_of_other_compiler(a: &mut Assembler) {
    a.leaf(CU, &[(0x25, Form::Text("GNU C17 12.2.0"))]);
}

#[test]
fn coroutine_layouts_are_declined_with_the_reason() {
    let tokio = || Image {
        dynamic: vec![("_ZN5tokio7runtime4task3rawE", 0x20, false)],
        ..Image::default()
    };
    assert!(matches!(
        tokio_dwarf::load_layouts(b"no object"),
        Err(AsyncDecodeError::Object(_))
    ));
    assert!(matches!(
        tokio_dwarf::load_layouts(&Image::default().build()),
        Err(AsyncDecodeError::NotTokioBinary)
    ));
    assert!(matches!(
        tokio_dwarf::load_layouts(&tokio().build()),
        Err(AsyncDecodeError::NoDebugInfo)
    ));
    assert!(matches!(
        tokio_dwarf::load_layouts(&tokio().with_unit(unit_of_old_compiler).build()),
        Err(AsyncDecodeError::UnsupportedLayout(_))
    ));
    assert!(matches!(
        tokio_dwarf::load_layouts(&tokio().with_unit(unit_of_other_compiler).build()),
        Err(AsyncDecodeError::UnsupportedLayout(_))
    ));
    assert!(matches!(
        tokio_dwarf::load_layouts(&tokio().with_unit(unit_without_coroutines).build()),
        Err(AsyncDecodeError::NoCoroutines)
    ));
    let mut broken = tokio();
    broken.sections.push((".debug_info", vec![40, 0, 0, 0, 4, 0]));
    assert!(matches!(
        tokio_dwarf::load_layouts(&broken.build()),
        Err(AsyncDecodeError::Dwarf(_))
    ));
}

#[test]
fn enumeration_facts_come_from_the_binary() {
    let facts = enumerate_dwarf::resolve(&tokio_parts().build()).expect("facts");
    assert_eq!(facts.version, TokioVersion::new(1, 44, 2));
    assert_eq!(facts.context_tls_offset, 0x20);
    assert_eq!(facts.tls_align, 16);
    assert_eq!(facts.tls_block_size, 72);
    assert_eq!(facts.min_load_vaddr, 0x2000);
    assert_eq!(facts.poll_type_count(), 1);
    assert_eq!(
        facts.future_type_for(0x7700),
        Some("app::sleeper::{async_fn_env#0}")
    );
    assert_eq!(facts.future_type_for(0x7701), None);
}

#[test]
fn enumeration_declines_with_the_reason() {
    let mut image = tokio_parts();
    image.trailer = Vec::new();
    assert!(matches!(
        EnumerationPlan::resolve(&image.build()),
        Err(EnumerateError::TokioVersionUnknown)
    ));
    image.trailer = b"tokio-1.45.0/ and enough text after it".to_vec();
    assert!(matches!(
        EnumerationPlan::resolve(&image.build()),
        Err(EnumerateError::UnsupportedTokioVersion(_))
    ));
    assert!(matches!(
        EnumerationPlan::resolve(b"tokio-1.44.2/ and no object at all here"),
        Err(EnumerateError::Parse(_))
    ));
    let mut image = tokio_parts();
    image.symbols = vec![("_ZN5tokio7runtime7context7CONTEXT17habcE", 0x20, false)];
    assert!(matches!(
        EnumerationPlan::resolve(&image.build()),
        Err(EnumerateError::ContextSymbolMissing)
    ));
    let mut image = tokio_parts();
    image.sections.clear();
    assert!(matches!(
        EnumerationPlan::resolve(&image.build()),
        Err(EnumerateError::NoDebugInfo)
    ));
}

// --- From the binary to the tasks --------------------------------------------

#[derive(Default)]
struct Process {
    bytes: BTreeMap<u64, u8>,
    pointers: Vec<Option<u64>>,
    base: Option<u64>,
}

impl Process {
    fn put(&mut self, addr: u64, v: u64) {
        for (i, b) in v.to_le_bytes().iter().enumerate() {
            self.bytes.insert(addr + i as u64, *b);
        }
    }
}

impl ProcessView for Process {
    fn thread_ids(&self) -> Vec<ThreadId> {
        (0..self.pointers.len() as u64).map(ThreadId::new).collect()
    }
    fn registers(&self, _t: ThreadId) -> Result<Registers, DecoderError> {
        Ok(Registers { pc: 0, sp: 0 })
    }
    fn read_memory(&self, addr: u64, len: usize) -> Result<Vec<u8>, DecoderError> {
        let mut out = Vec::new();
        for i in 0..len as u64 {
            match self.bytes.get(&(addr + i)) {
                Some(byte) => out.push(*byte),
                None => {
                    return Err(DecoderError::MemoryReadFailed {
                        addr,
                        len,
                        reason: "unmapped".to_string(),
                    })
                }
            }
        }
        Ok(out)
    }
    fn physical_frames(&self, _t: ThreadId) -> Result<Vec<PhysicalFrame>, DecoderError> {
        Ok(vec![])
    }
}

impl LiveProcessView for Process {
    fn thread_pointer(&self, thread: ThreadId) -> Result<Option<u64>, DecoderError> {
        Ok(self.pointers[thread.0 as usize])
    }
    fn executable_base(&self) -> Option<u64> {
        self.base
    }
}

/// A runtime entered on the second of three threads (and on the third again),
/// with two tasks in one shard.
fn process() -> Process {
    let l = TokioRuntimeLayout::vendored(TokioVersion::new(1, 44, 2)).expect("1.44");
    let mut p = Process {
        pointers: vec![None, Some(0x10_0000), Some(0x10_0000)],
        base: Some(0x8000_2000),
        ..Process::default()
    };
    // Variant II: the block of 72 bytes, aligned to 16, lies 80 below.
    let context = 0x10_0000 - 80 + 0x20;
    p.put(context + l.context_current + l.handle_cell_value, 0x5000);
    let owned = 0x5000 + l.arc_data + l.handle_shared + l.shared_owned;
    p.put(owned + l.owned_list + l.sharded_lists, 0x6000);
    p.put(owned + l.owned_list + l.sharded_lists + 8, 1);
    p.put(0x6000 + l.mutex_data + l.list_head, 0x2_0000);
    for (header, next, vtable) in [(0x2_0000u64, 0x1_0000u64, 0x9000u64), (0x1_0000, 0, 0x9100)] {
        p.put(header + l.header_vtable, vtable);
        p.put(vtable + l.vtable_trailer_offset, 0x400);
        p.put(header + 0x400 + l.trailer_owned_next, next);
    }
    // Loaded 0x8000_0000 above its static addresses.
    p.put(0x9000 + l.vtable_poll, 0x8000_7700);
    p.put(0x9100 + l.vtable_poll, 0x8000_7777);
    p
}

#[test]
fn tasks_of_a_runtime_are_enumerated_and_decoded() {
    let image = tokio_parts().build();
    let plan = EnumerationPlan::resolve(&image).expect("plan");
    let decoder = TokioDecoder::from_binary(&image).expect("decoder");
    let mut p = process();
    let roots = plan
        .enumerate_roots(&p, decoder.layouts(), TlsVariant::VariantII)
        .expect("roots");
    // One of the two tasks has a future that is known, and it is listed once.
    assert_eq!(roots.len(), 1);
    assert_eq!(roots[0].base, 0x2_0000 + 56);
    assert_eq!(roots[0].type_path, "app::sleeper::{async_fn_env#0}");

    for i in 0..24 {
        p.bytes.insert(roots[0].base + i, 0);
    }
    p.bytes.insert(roots[0].base + 20, 3);
    p.put(0x2_0000, 0);
    let tree = decoder
        .with_roots(roots)
        .decode_tasks(&p)
        .expect("task tree");
    let root = tree.node(tree.roots()[0]).expect("root");
    assert_eq!(root.kind, TaskKind::AsyncTask);
    assert_eq!(root.name, "sleeper");
}

#[test]
fn enumeration_needs_a_process_that_can_be_placed() {
    let image = tokio_parts().build();
    let plan = EnumerationPlan::resolve(&image).expect("plan");
    let (layouts, _) = tokio_dwarf::load_layouts(&image).expect("layouts");
    let mut p = process();
    p.base = None;
    assert!(matches!(
        plan.enumerate_roots(&p, &layouts, TlsVariant::VariantII),
        Err(EnumerateError::LoadBaseUnavailable)
    ));
    let mut p = process();
    p.pointers = vec![None];
    assert!(matches!(
        plan.enumerate_roots(&p, &layouts, TlsVariant::VariantII),
        Err(EnumerateError::ThreadPointerUnavailable)
    ));
    let mut p = process();
    p.put(0x10_0000 - 80 + 0x20 + 16, 0);
    assert!(matches!(
        plan.enumerate_roots(&p, &layouts, TlsVariant::VariantII),
        Err(EnumerateError::NoRuntimeHandle)
    ));
}

#[test]
fn the_best_decoder_is_selected_for_a_binary() {
    let view = Process {
        pointers: vec![None, None],
        ..Process::default()
    };
    // Native threads: one task per thread.
    let tree = select_decoder_for_binary(b"no object")
        .decoder
        .decode_tasks(&view)
        .expect("threads");
    assert_eq!(tree.roots(), &[TaskId::new(0), TaskId::new(1)]);
    // Go: nothing can be read at the address of the list of goroutines.
    assert!(select_decoder_for_binary(&go_image())
        .decoder
        .decode_tasks(&view)
        .is_err());
    let mut with_list = Process::default();
    with_list.put(0x4000, 0x6000);
    with_list.put(0x4008, 0);
    with_list.put(0x5000, 0);
    assert!(select_decoder_for_binary(&go_image())
        .decoder
        .decode_tasks(&with_list)
        .is_ok());
    // Tokio: declines until it is given roots.
    assert!(matches!(
        select_decoder_for_binary(&tokio_parts().build())
            .decoder
            .decode_tasks(&view),
        Err(DecoderError::NotApplicable { .. })
    ));
}

#[test]
fn a_view_that_cannot_be_placed_is_declined() {
    let image = tokio_parts().build();
    let plan = EnumerationPlan::resolve(&image).expect("plan");
    let (layouts, _) = tokio_dwarf::load_layouts(&image).expect("layouts");
    let p = process();
    let unplaced = Unplaced { view: &p };
    assert!(matches!(
        plan.enumerate_roots(&unplaced, &layouts, TlsVariant::VariantII),
        Err(EnumerateError::LoadBaseUnavailable)
    ));
    assert_eq!(unplaced.thread_ids(), p.thread_ids());
    assert_eq!(unplaced.thread_pointer(ThreadId::new(1)).expect("none"), None);
}

/// The Go unit, with bytes after its root's last child that are no entry.
fn go_unit_with_junk(a: &mut Assembler) {
    go_unit(a);
    a.info.extend_from_slice(&[0x7f, 0x7f]);
}

/// The Go unit, with bytes that are no entry before its root ends.
fn go_unit_cut_short(a: &mut Assembler) {
    go_unit(a);
    a.info.pop();
    a.info.push(0x7f);
}

/// The Tokio unit, with bytes after its root's last child that are no entry.
fn tokio_unit_with_junk(a: &mut Assembler) {
    tokio_unit(a);
    a.info.push(0x7f);
}

#[test]
fn what_comes_after_the_root_is_not_needed_for_layouts() {
    let go = |unit| {
        Image {
            symbols: vec![("runtime.allgs", 0x4000, false)],
            ..Image::default()
        }
        .with_unit(unit)
        .build()
    };
    let layout = go_dwarf::load_layout(&go(go_unit_with_junk)).expect("layout");
    assert_eq!(layout.source, LayoutSource::Dwarf);
    assert_eq!(layout.g.goid, 152);
    assert!(matches!(
        go_dwarf::load_layout(&go(go_unit_cut_short)),
        Err(GoDecodeError::Dwarf(_))
    ));

    let mut parts = tokio_parts();
    parts.sections.truncate(1);
    let image = parts.with_unit(tokio_unit_with_junk).build();
    let (layouts, _) = tokio_dwarf::load_layouts(&image).expect("layouts");
    assert_eq!(layouts.len(), 2);
    // The poll functions are looked for in the whole unit.
    assert!(matches!(
        enumerate_dwarf::resolve(&image),
        Err(EnumerateError::Parse(_))
    ));
}

// --- Indices, strays, addresses and compression ------------------------------

fn beyond(e: &str) -> bool {
    e == "An index is beyond every table."
}

fn unit_named_beyond(a: &mut Assembler) {
    a.leaf(CU, &[(0x03, Form::TextIndex(u64::MAX))]);
}

fn unit_in_directory_beyond(a: &mut Assembler) {
    a.leaf(CU, &[(0x1b, Form::TextIndex(0x2000_0000_0000_0000))]);
}

fn unit_placed_beyond(a: &mut Assembler) {
    a.leaf(CU, &[(0x11, Form::AddressIndex(u64::MAX - 7))]);
}

fn struct_named_beyond(a: &mut Assembler) {
    a.entry("cu", CU, true, &[]);
    a.leaf(STRUCT, &[(0x03, Form::TextIndex(u64::MAX))]);
    a.close();
}

fn struct_named_by_index(a: &mut Assembler) {
    a.entry("cu", CU, true, &[]);
    a.leaf(STRUCT, &[(0x03, Form::TextIndex(1))]);
    a.close();
}

fn poll_placed_beyond(a: &mut Assembler) {
    a.entry("cu", CU, true, &[]);
    a.leaf(SUBPROGRAM, &[name("poll<F, S>"), (0x11, Form::AddressIndex(u64::MAX))]);
    a.close();
}

#[test]
fn an_index_beyond_every_table_is_an_error() {
    let go = |unit| {
        Image {
            symbols: vec![("runtime.allgs", 0x4000, false)],
            ..Image::default()
        }
        .with_unit(unit)
    };
    for unit in [
        unit_named_beyond as fn(&mut Assembler),
        unit_in_directory_beyond,
        unit_placed_beyond,
        struct_named_beyond,
    ] {
        assert!(matches!(
            go_dwarf::load_layout(&go(unit).build()),
            Err(GoDecodeError::Dwarf(e)) if beyond(&e)
        ));
    }
    // An index within the tables is looked up.
    let mut named = go(struct_named_by_index);
    named.sections.push((".debug_str_offsets", vec![9, 0, 0, 0, 2, 0, 0, 0]));
    named.sections.push((".debug_str", b"x\0runtime.stack\0".to_vec()));
    assert!(matches!(
        go_dwarf::load_layout(&named.build()),
        Err(GoDecodeError::LayoutUnresolved(_))
    ));

    let mut parts = tokio_parts();
    parts.sections.truncate(1);
    assert!(matches!(
        enumerate_dwarf::resolve(&parts.with_unit(poll_placed_beyond).build()),
        Err(EnumerateError::Parse(e)) if beyond(&e)
    ));
}

/// A coroutine whose state and discriminant refer to `target`.
fn unit_referring_to(a: &mut Assembler, target: &'static str) {
    a.entry(
        "cu",
        CU,
        true,
        &[(0x25, Form::Text("clang LLVM (rustc version 1.83.0 (abc))"))],
    );
    a.entry("listed", STRUCT, false, &[name("Returned"), sized(3)]);
    // A structure like the one before, as the bytes of an expression.
    let mut bytes = vec![a.code];
    bytes.extend_from_slice(b"Unresumed\0");
    bytes.push(24);
    a.entry("holder", VARIABLE, false, &[(0x02, Form::Expr(bytes))]);
    let hidden = a.labels["holder"] + 2;
    a.labels.insert("hidden", hidden);
    a.entry("coroutine", STRUCT, true, &[name("{async_fn_env#0}"), sized(24)]);
    a.entry("part", VARIANT_PART, true, &[(0x15, Form::Ref("state"))]);
    a.entry("state", MEMBER, false, &[name("__state"), of_type(target), at_offset(20)]);
    a.entry("v0", VARIANT, true, &[(0x16, Form::Number(7))]);
    a.leaf(MEMBER, &[name("0"), of_type(target), at_offset(0)]);
    let end = a.info.len() as u32;
    a.labels.insert("null", end);
    a.close();
    a.close();
    a.close();
    a.close();
}

fn unit_referring_to_a_listed_entry(a: &mut Assembler) {
    unit_referring_to(a, "listed");
}

fn unit_referring_to_a_hidden_entry(a: &mut Assembler) {
    unit_referring_to(a, "hidden");
}

fn unit_referring_to_a_null_entry(a: &mut Assembler) {
    unit_referring_to(a, "null");
}

fn unit_referring_outside(a: &mut Assembler) {
    unit_referring_to(a, "nowhere");
}

#[test]
fn a_reference_is_followed_to_whatever_starts_there() {
    let load = |unit| {
        let mut parts = tokio_parts();
        parts.sections.truncate(1);
        tokio_dwarf::load_layouts(&parts.with_unit(unit).build())
    };
    for (unit, kind, size) in [
        (
            unit_referring_to_a_listed_entry as fn(&mut Assembler),
            VariantKind::Returned,
            3,
        ),
        (unit_referring_to_a_hidden_entry, VariantKind::Unresumed, 24),
    ] {
        let (layouts, _) = load(unit).expect("layouts");
        let layout = layouts.get("{async_fn_env#0}").expect("the coroutine");
        assert_eq!(layout.discr_size, size);
        assert_eq!(layout.variants[&7].kind, kind);
    }
    assert!(matches!(
        load(unit_referring_to_a_null_entry),
        Err(AsyncDecodeError::Dwarf(e)) if e == "Read a null entry before it was expected."
    ));
    assert!(matches!(
        load(unit_referring_outside),
        Err(AsyncDecodeError::Dwarf(e)) if e == "The given offset is out of bounds."
    ));
}

/// A PE file that counts addresses from `base`, with one section, at 0x1000, and
/// one symbol, 0x20 into it.
fn pe_image(base: u64) -> Vec<u8> {
    let mut out = vec![0u8; 64];
    out[0..2].copy_from_slice(b"MZ");
    out[60..64].copy_from_slice(&64u32.to_le_bytes());
    out.extend_from_slice(b"PE\0\0");
    let symbols_at = 64 + 4 + 20 + 240 + 40u32;
    out.extend_from_slice(&0x8664u16.to_le_bytes());
    out.extend_from_slice(&1u16.to_le_bytes());
    out.extend_from_slice(&0u32.to_le_bytes());
    out.extend_from_slice(&symbols_at.to_le_bytes());
    out.extend_from_slice(&1u32.to_le_bytes());
    out.extend_from_slice(&240u16.to_le_bytes());
    out.extend_from_slice(&0x22u16.to_le_bytes());
    let mut optional = vec![0u8; 240];
    optional[0..2].copy_from_slice(&0x20bu16.to_le_bytes());
    optional[24..32].copy_from_slice(&base.to_le_bytes());
    optional[108..112].copy_from_slice(&16u32.to_le_bytes());
    out.extend_from_slice(&optional);
    let mut section = vec![0u8; 40];
    section[0..5].copy_from_slice(b".data");
    section[12..16].copy_from_slice(&0x1000u32.to_le_bytes());
    out.extend_from_slice(&section);
    out.extend_from_slice(&0u32.to_le_bytes());
    out.extend_from_slice(&4u32.to_le_bytes());
    out.extend_from_slice(&0x20u32.to_le_bytes());
    out.extend_from_slice(&1u16.to_le_bytes());
    out.extend_from_slice(&0u16.to_le_bytes());
    out.extend_from_slice(&[2, 0]);
    out.extend_from_slice(&18u32.to_le_bytes());
    out.extend_from_slice(b"runtime.allgs\0");
    out
}

#[test]
fn a_symbol_is_placed_from_the_base_of_its_image() {
    let low = pe_image(0x1_4000_0000);
    assert!(go_dwarf::is_go_object(&low));
    assert_eq!(object_file::symbol_addr(&low, "runtime.allgs"), Some(0x1_4000_1020));
    assert_eq!(object_file::symbol_addr(&low, "runtime.allglen"), None);
    assert_eq!(go_dwarf::extract(&low).expect("read").allgs_addr, Some(0x1_4000_1020));
    // No symbol has an address where the base leaves no room for one.
    let high = pe_image(u64::MAX);
    assert!(go_dwarf::is_go_object(&high));
    assert!(!tokio_dwarf::is_tokio_object(&high));
    assert_eq!(object_file::symbol_addr(&high, "runtime.allgs"), None);
    assert_eq!(go_dwarf::extract(&high).expect("read").allgs_addr, None);
    // In an ELF file the symbol's value is its address, however high.
    let elf = Image {
        symbols: vec![("other", 1, false), ("runtime.allgs", u64::MAX, false)],
        ..Image::default()
    }
    .build();
    assert_eq!(object_file::symbol_addr(&elf, "runtime.allgs"), Some(u64::MAX));
}

/// A Zstandard frame of one block: kind 0 is stored as it is, kind 2 is
/// compressed.
fn frame(kind: u32, block: &[u8]) -> Vec<u8> {
    let mut out = vec![0x28, 0xb5, 0x2f, 0xfd, 0, 0x58];
    let header = (block.len() as u32) << 3 | kind << 1 | 1;
    out.extend_from_slice(&header.to_le_bytes()[..3]);
    out.extend_from_slice(block);
    out
}

/// Two frames and one to be skipped, with a checksum behind the first.
fn frames(last: &[u8]) -> Vec<u8> {
    let mut out = vec![0x28, 0xb5, 0x2f, 0xfd, 0x04, 0, 1, 0, 0, 1, 2, 3, 4];
    out.extend_from_slice(&[0x5a, 0x2a, 0x4d, 0x18, 2, 0, 0, 0, 9, 9]);
    out.extend_from_slice(last);
    out
}

#[test]
fn a_block_that_can_become_too_long_does_not_fit() {
    // No literals, and as many sequences as still fit, or one more.
    let most = [0x00, 0xff, 0xff, 0x00, 0x54];
    let more = [0x00, 0xff, 0x00, 0x01, 0x54];
    assert!(zstandard::is_fitting(&frame(2, &most)));
    assert!(!zstandard::is_fitting(&frame(2, &more)));
    assert!(zstandard::is_fitting(&frame(0, &more)));
    assert!(zstandard::is_fitting(&frames(&frame(2, &most))));
    assert!(!zstandard::is_fitting(&frames(&frame(2, &more))));
    // Two literals, stored as they are, before as many sequences.
    assert!(!zstandard::is_fitting(&frame(2, &[0x10, 7, 7, 0xff, 0x00, 0x01, 0x54])));
    // As many literals as one byte repeated can become take the room of eight
    // sequences.
    let repeated = |low: u8| [0xfd, 0xff, 0xff, 7, 0xff, low, 0x00, 0x54];
    assert!(zstandard::is_fitting(&frame(2, &repeated(0xf7))));
    assert!(!zstandard::is_fitting(&frame(2, &repeated(0xf8))));
    // What cannot be read is left to the decoder.
    assert!(zstandard::is_fitting(&[]));
    assert!(zstandard::is_fitting(b"no frame"));
    assert!(zstandard::is_fitting(&frame(2, &more)[..10]));
}

/// A section compressed with Zstandard.
fn packed(size: usize, stream: &[u8]) -> Vec<u8> {
    let mut out = vec![2, 0, 0, 0, 0, 0, 0, 0];
    out.extend_from_slice(&(size as u64).to_le_bytes());
    out.extend_from_slice(&1u64.to_le_bytes());
    out.extend_from_slice(stream);
    out
}

#[test]
fn compressed_sections_are_read() {
    let (abbrev, info) = unit(go_unit);
    let image = |stream: &[u8]| {
        Image {
            symbols: vec![("runtime.allgs", 0x4000, false)],
            sections: vec![
                (".debug_abbrev", abbrev.clone()),
                (".debug_info", packed(info.len(), stream)),
            ],
            compressed: vec![".debug_info"],
            ..Image::default()
        }
        .build()
    };
    let whole = image(&frame(0, &info));
    assert_eq!(object_file::read_section(&whole, ".debug_info"), info);
    assert_eq!(object_file::read_section(&whole, ".debug_abbrev"), abbrev);
    let layout = go_dwarf::load_layout(&whole).expect("layout");
    assert_eq!(layout.source, LayoutSource::Dwarf);
    assert_eq!(layout.g.goid, 152);
    for stream in [
        frame(2, &[0x00, 0xff, 0x00, 0x01, 0x54]),
        frame(0, &info[1..]),
        b"no frame".to_vec(),
    ] {
        let image = image(&stream);
        assert!(object_file::is_section(&image, ".debug_info"));
        assert!(object_file::read_section(&image, ".debug_info").is_empty());
    }
    assert!(!object_file::is_section(&whole, ".debug_line"));
}
