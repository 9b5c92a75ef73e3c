use angr_bad::image::{ElfImage, Segment};
use angr_bad::ir::Expr;
use angr_bad::mem::Mem;
use angr_bad::LiftError;

#[test]
fn default_reads_zero() {
    let m = Mem::default();
    assert_eq!(m.read_byte(0), Expr::Const(0));
    assert_eq!(m.read_byte(123456), Expr::Const(0));
    assert_eq!(m.read_byte(usize::MAX), Expr::Const(0));
}

#[test]
fn set_and_read_back() {
    let mut m = Mem::default();
    m.set_byte(5, 7);
    assert_eq!(m.read_byte(5), Expr::Const(7));
    assert_eq!(m.read_byte(4), Expr::Const(0));
    assert_eq!(m.read_byte(6), Expr::Const(0));
}

#[test]
fn load_bytes_zero_fills() {
    let mut m = Mem::default();
    m.load_bytes(&[1, 2], 0x100..0x104);
    assert_eq!(m.read_byte(0x100), Expr::Const(1));
    assert_eq!(m.read_byte(0x101), Expr::Const(2));
    assert_eq!(m.read_byte(0x102), Expr::Const(0));
    assert_eq!(m.read_byte(0x103), Expr::Const(0));
    assert_eq!(m.read_byte(0xff), Expr::Const(0));
    assert_eq!(m.read_byte(0x104), Expr::Const(0));
}

#[test]
fn page_addressing() {
    let a: usize = 8192 + 5;
    assert_ne!(Mem::page_index(a), Mem::page_index(a + 4096));
    assert_eq!(Mem::page_index(a + 4096), Mem::page_index(a) + 1);
    assert_eq!(Mem::page_index(a), Mem::page_index(a + 1));
    assert_eq!(Mem::page_offset(a + 1), Mem::page_offset(a) + 1);
    assert_eq!(Mem::page_index(0), 0);
    assert_eq!(Mem::page_index(4096), 1);
    assert_eq!(Mem::page_offset(4096), 0);
}

#[test]
fn writes_across_page_boundary() {
    let mut m = Mem::default();
    m.set_byte(4095, 1);
    m.set_byte(4096, 2);
    assert_eq!(m.read_byte(4095), Expr::Const(1));
    assert_eq!(m.read_byte(4096), Expr::Const(2));
}

#[test]
fn load_segment_zero_fills() {
    let bytes = [0xaa, 0xbb];
    let img = ElfImage {
        entry: 0,
        segments: vec![Segment {
            p_type: 1,
            file_off: 0,
            file_size: 2,
            vaddr: 0x1000,
            mem_size: 4,
        }],
        sections: vec![],
    };
    let mut m = Mem::default();
    m.load_elf(&bytes, &img).unwrap();
    assert_eq!(m.read_byte(0x1000), Expr::Const(0xaa));
    assert_eq!(m.read_byte(0x1001), Expr::Const(0xbb));
    assert_eq!(m.read_byte(0x1002), Expr::Const(0));
    assert_eq!(m.read_byte(0x1003), Expr::Const(0));
    assert_eq!(m.read_byte(0xfff), Expr::Const(0));
}

#[test]
fn load_segment_out_of_range() {
    let img = ElfImage {
        entry: 0,
        segments: vec![Segment {
            p_type: 1,
            file_off: 0,
            file_size: 8,
            vaddr: 0,
            mem_size: 8,
        }],
        sections: vec![],
    };
    let mut m = Mem::default();
    assert_eq!(m.load_elf(&[1, 2], &img), Err(LiftError::Range));
    assert_eq!(m.read_byte(0), Expr::Const(0));
}

#[test]
fn non_loadable_segments_are_skipped() {
    let img = ElfImage {
        entry: 0,
        segments: vec![Segment {
            p_type: 4,
            file_off: 0,
            file_size: 2,
            vaddr: 0x2000,
            mem_size: 2,
        }],
        sections: vec![],
    };
    let mut m = Mem::default();
    m.load_elf(&[3, 4], &img).unwrap();
    assert_eq!(m.read_byte(0x2000), Expr::Const(0));
}

#[test]
fn bad_image_is_refused() {
    let mut m = Mem::default();
    assert_eq!(m.load_elf_bytes(b"not an elf"), Err(LiftError::BadImage));
}
