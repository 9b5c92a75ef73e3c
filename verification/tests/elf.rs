use angr_bad::ir::Expr;
use angr_bad::lift::lift_elf_bytes;
use angr_bad::mem::Mem;
use angr_bad::LiftError;

fn push_u16(v: &mut Vec<u8>, x: u16) {
    v.extend_from_slice(&x.to_le_bytes());
}

fn push_u32(v: &mut Vec<u8>, x: u32) {
    v.extend_from_slice(&x.to_le_bytes());
}

fn push_u64(v: &mut Vec<u8>, x: u64) {
    v.extend_from_slice(&x.to_le_bytes());
}

/// A minimal 64-bit little-endian ELF executable: one loadable segment and
/// one code section at virtual address 0x1000, holding `XOR eax, eax`
/// followed by two zero-filled bytes in memory.
fn tiny_elf() -> Vec<u8> {
    let code: [u8; 2] = [0x31, 0xc0];
    let code_off: u64 = 120;
    let sh_off: u64 = 128;
    let mut v: Vec<u8> = Vec::new();
    // ELF header.
    v.extend_from_slice(&[0x7f, b'E', b'L', b'F', 2, 1, 1, 0, 0, 0, 0, 0, 0, 0, 0, 0]);
    push_u16(&mut v, 2); // e_type: executable
    push_u16(&mut v, 62); // e_machine
    push_u32(&mut v, 1); // e_version
    push_u64(&mut v, 0x1000); // e_entry
    push_u64(&mut v, 64); // e_phoff
    push_u64(&mut v, sh_off); // e_shoff
    push_u32(&mut v, 0); // e_flags
    push_u16(&mut v, 64); // e_ehsize
    push_u16(&mut v, 56); // e_phentsize
    push_u16(&mut v, 1); // e_phnum
    push_u16(&mut v, 64); // e_shentsize
    push_u16(&mut v, 2); // e_shnum
    push_u16(&mut v, 0); // e_shstrndx
    assert_eq!(v.len(), 64);
    // Program header: one PT_LOAD segment, file size 2, memory size 4.
    push_u32(&mut v, 1); // p_type
    push_u32(&mut v, 5); // p_flags
    push_u64(&mut v, code_off); // p_offset
    push_u64(&mut v, 0x1000); // p_vaddr
    push_u64(&mut v, 0x1000); // p_paddr
    push_u64(&mut v, 2); // p_filesz
    push_u64(&mut v, 4); // p_memsz
    push_u64(&mut v, 0x1000); // p_align
    assert_eq!(v.len(), 120);
    v.extend_from_slice(&code);
    while (v.len() as u64) < sh_off {
        v.push(0);
    }
    // Section header 0: the null section.
    v.extend_from_slice(&[0u8; 64]);
    // Section header 1: the code section at 0x1000.
    push_u32(&mut v, 0); // sh_name
    push_u32(&mut v, 1); // sh_type: progbits
    push_u64(&mut v, 6); // sh_flags
    push_u64(&mut v, 0x1000); // sh_addr
    push_u64(&mut v, code_off); // sh_offset
    push_u64(&mut v, 2); // sh_size
    push_u32(&mut v, 0); // sh_link
    push_u32(&mut v, 0); // sh_info
    push_u64(&mut v, 0); // sh_addralign
    push_u64(&mut v, 0); // sh_entsize
    v
}

#[test]
fn lift_whole_image() {
    let elf = tiny_elf();
    let p = lift_elf_bytes(&elf).unwrap();
    assert_eq!(
        p.render().unwrap(),
        "fn _start():\n0:\nregs.eax = (regs.eax ^ regs.eax);\n"
    );
}

#[test]
fn load_whole_image() {
    let elf = tiny_elf();
    let mut m = Mem::default();
    m.load_elf_bytes(&elf).unwrap();
    // The code bytes land at the segment's virtual address...
    assert_eq!(m.read_byte(0x1000), Expr::Const(0x31));
    assert_eq!(m.read_byte(0x1001), Expr::Const(0xc0));
    // ...the rest of the memory range is zero-filled...
    assert_eq!(m.read_byte(0x1002), Expr::Const(0));
    assert_eq!(m.read_byte(0x1003), Expr::Const(0));
    // ...and the surroundings stay untouched.
    assert_eq!(m.read_byte(0xfff), Expr::Const(0));
    assert_eq!(m.read_byte(0x1004), Expr::Const(0));
}

#[test]
fn lifting_refuses_a_bad_image() {
    assert!(matches!(lift_elf_bytes(b"not an elf"), Err(LiftError::BadImage)));
}

#[test]
fn lifting_refuses_a_section_past_the_image() {
    let mut elf = tiny_elf();
    // Blow up the code section's size so its file range reaches past the
    // image; the lookup then fails with the range error.
    elf[224..232].copy_from_slice(&0xffff_u64.to_le_bytes());
    assert!(matches!(lift_elf_bytes(&elf), Err(LiftError::Range)));
}
