use asmos::arch::{get, init, Stage};
use asmos::exceptions::{
    address_text, banner, BreakpointException, DivisionError, DoubleFault, GeneralProtectionFault,
    PageFault,
};
use asmos::gdt::{GDTEntry, Load, Register, STACK_SIZE};
use asmos::idt::Gate;
use asmos::multiboot::{header, header_checksum, tag_word, HEADER_MAGIC};

#[test]
fn architecture_name() {
    assert_eq!(get(), "x86_64");
}

#[test]
fn exception_vectors_and_mnemonics() {
    assert_eq!(DivisionError::CODE, 0);
    assert_eq!(DivisionError::MNEMONIC, "DE");
    assert_eq!(BreakpointException::CODE, 3);
    assert_eq!(BreakpointException::MNEMONIC, "BP");
    assert_eq!(DoubleFault::CODE, 8);
    assert_eq!(DoubleFault::MNEMONIC, "DF");
    assert_eq!(DoubleFault::IST_INDEX, 0);
    assert_eq!(GeneralProtectionFault::CODE, 13);
    assert_eq!(GeneralProtectionFault::MNEMONIC, "GP");
    assert_eq!(PageFault::CODE, 14);
    assert_eq!(PageFault::MNEMONIC, "PF");
}

#[test]
fn banner_shows_two_hex_digits_in_upper_case() {
    assert_eq!(banner("BP", 0x03), "(#BP, 0x03)");
    assert_eq!(banner("PF", 0x0E), "(#PF, 0x0E)");
    assert_eq!(banner("XX", 0xAF), "(#XX, 0xAF)");
    assert_eq!(banner("", 0x00), "(#, 0x00)");
    assert_eq!(banner("MC", 0x12), "(#MC, 0x12)");
    assert_eq!(banner("Q", 0xFF), "(#Q, 0xFF)");
    assert_eq!(banner("R", 0x9B), "(#R, 0x9B)");
    assert_eq!(banner("S", 0xCD), "(#S, 0xCD)");
    assert_eq!(banner("T", 0x45), "(#T, 0x45)");
    assert_eq!(banner("U", 0x67), "(#U, 0x67)");
    assert_eq!(banner("V", 0x80), "(#V, 0x80)");
}

#[test]
fn breakpoint_logs_one_line() {
    assert_eq!(BreakpointException::handler("<frame>"), "(#BP, 0x03) @ <frame>");
}

#[test]
fn division_error_report() {
    assert_eq!(DivisionError::handler("frame"), "(#DE, 0x00) @ frame");
}

#[test]
fn double_fault_report() {
    assert_eq!(DoubleFault::handler("<frame>", "0"), "(#DF, 0x08) @ <frame>, E=0");
}

#[test]
fn general_protection_fault_report() {
    assert_eq!(
        GeneralProtectionFault::handler("<frame>", "16", 0),
        "(#GP, 0x0D) @ <frame>, E=16, ADDR=0x0"
    );
}

#[test]
fn page_fault_report() {
    assert_eq!(
        PageFault::handler("<frame>", "CAUSED_BY_WRITE", 0xDEAD_BEEF_0000),
        "(#PF, 0x0E) @ <frame>, E=CAUSED_BY_WRITE, ADDR=0xDEAD_BEEF_0000"
    );
}

#[test]
fn interrupt_table_gates() {
    assert_eq!(
        asmos::idt::init(),
        vec![
            Gate { vector: 0, stack_index: None },
            Gate { vector: 3, stack_index: None },
            Gate { vector: 8, stack_index: Some(0) },
            Gate { vector: 13, stack_index: None },
            Gate { vector: 14, stack_index: None },
        ]
    );
}

#[test]
fn descriptor_table_entries() {
    assert_eq!(GDTEntry::KernelCodeSegment.index(), 0);
    assert_eq!(GDTEntry::KernelDataSegment.index(), 1);
    assert_eq!(GDTEntry::TaskStateSegment.index(), 2);
    assert_eq!(STACK_SIZE, 8192);
}

#[test]
fn descriptor_table_loads() {
    let data = Some(GDTEntry::KernelDataSegment);
    assert_eq!(
        asmos::gdt::init(),
        vec![
            Load { register: Register::CS, entry: Some(GDTEntry::KernelCodeSegment) },
            Load { register: Register::DS, entry: data },
            Load { register: Register::ES, entry: data },
            Load { register: Register::FS, entry: data },
            Load { register: Register::GS, entry: data },
            Load { register: Register::SS, entry: None },
            Load { register: Register::TR, entry: Some(GDTEntry::TaskStateSegment) },
        ]
    );
}

#[test]
fn header_checksum_brings_the_sum_to_zero() {
    assert_eq!(header_checksum(80), 0x17AD_AEDA);
    assert_eq!(HEADER_MAGIC.wrapping_add(80).wrapping_add(header_checksum(80)), 0);
    assert_eq!(header_checksum(0), 0x17AD_AF2A);
    assert_eq!(header_checksum(0x17AD_AF2A), 0);
    assert_eq!(header_checksum(u32::MAX), 0x17AD_AF2B);
}

#[test]
fn tag_word_holds_type_and_flags() {
    assert_eq!(tag_word(5, 1), 0x1_0005);
    assert_eq!(tag_word(1, 0), 1);
    assert_eq!(tag_word(0xFFFF, 0xFFFF), 0xFFFF_FFFF);
}

#[test]
fn header_words() {
    let words = header();
    assert_eq!(
        words,
        vec![
            0xE852_50D6, 0, 80, 0x17AD_AEDA, 1, 16, 6, 0, 4, 16, 3, 0, 0x1_0005, 24, 80, 25, 0,
            0, 0, 8
        ]
    );
    assert_eq!(words.len() * 4, words[2] as usize);
    let sum = words[0].wrapping_add(words[1]).wrapping_add(words[2]).wrapping_add(words[3]);
    assert_eq!(sum, 0);
}

#[test]
fn stages_follow_the_bring_up_order() {
    let expected = [
        Stage::Metadata,
        Stage::Gdt,
        Stage::Idt,
        Stage::MemoryMap,
        Stage::PhysicalMemoryManager,
        Stage::PhysicalMemory,
        Stage::ReservedRegion,
        Stage::Heap,
        Stage::Allocator,
        Stage::Running,
    ];
    let mut stage = Stage::first();
    for (place, wanted) in expected.iter().enumerate() {
        assert_eq!(stage, *wanted);
        match stage.next() {
            Some(following) => stage = following,
            None => assert_eq!(place, 9),
        }
    }
    assert_eq!(Stage::Running.next(), None);
}

#[test]
fn step_moves_on_after_success() {
    assert_eq!(init(Stage::Metadata, true), Ok(Stage::Gdt));
    assert_eq!(init(Stage::PhysicalMemoryManager, true), Ok(Stage::PhysicalMemory));
    assert_eq!(init(Stage::Allocator, true), Ok(Stage::Running));
    assert_eq!(init(Stage::Running, true), Ok(Stage::Running));
}

#[test]
fn step_reports_the_stage_that_failed() {
    assert_eq!(init(Stage::Metadata, false), Err("kernel failed to retrieve metadata"));
    assert_eq!(init(Stage::Gdt, false), Err("kernel failed to initialize GDT"));
    assert_eq!(init(Stage::Idt, false), Err("kernel failed to initialize IDT"));
    assert_eq!(
        init(Stage::MemoryMap, false),
        Err("the bootloader failed to provide memory map tag")
    );
    assert_eq!(
        init(Stage::PhysicalMemoryManager, false),
        Err("kernel failed to initialize physical memory manager")
    );
    assert_eq!(init(Stage::PhysicalMemory, false), Err("kernel failed to map physical memory"));
    assert_eq!(init(Stage::ReservedRegion, false), Err("kernel failed to map reserved region"));
    assert_eq!(init(Stage::Heap, false), Err("kernel failed to allocate heap"));
    assert_eq!(init(Stage::Allocator, false), Err("kernel failed to initialize allocator"));
    assert_eq!(Stage::Heap.failure(), Some("kernel failed to allocate heap"));
    assert_eq!(Stage::Running.failure(), None);
    assert_eq!(init(Stage::Running, false), Ok(Stage::Running));
}

#[test]
fn addresses_are_written_in_groups_of_four_digits() {
    assert_eq!(address_text(0), "0x0");
    assert_eq!(address_text(9), "0x9");
    assert_eq!(address_text(0xA), "0xA");
    assert_eq!(address_text(0x10), "0x10");
    assert_eq!(address_text(0x1000), "0x1000");
    assert_eq!(address_text(0xFFFF), "0xFFFF");
    assert_eq!(address_text(0x1_0000), "0x1_0000");
    assert_eq!(address_text(0xB_8000), "0xB_8000");
    assert_eq!(address_text(0x1234_5678), "0x1234_5678");
    assert_eq!(address_text(0xDEAD_BEEF_0000), "0xDEAD_BEEF_0000");
    assert_eq!(address_text(0xFFFF_C000_0000_0000), "0xFFFF_C000_0000_0000");
    assert_eq!(address_text(u64::MAX), "0xFFFF_FFFF_FFFF_FFFF");
    assert_eq!(address_text(0x9AB_CDEF_0123_4567), "0x9AB_CDEF_0123_4567");
}
