//! The order in which the kernel is brought up, and what is reported when
//! a stage fails.

use vstd::prelude::*;

verus! {

/// The name of the architecture.
pub fn get() -> (name: &'static str)
    ensures
        name@ == "x86_64"@,
{
    "x86_64"
}

/// The stages of the bring-up, in their order.
#[derive(Clone, Copy, Debug, PartialEq, Eq, Structural)]
pub enum Stage {
    /// The boot information is read.
    Metadata,
    /// The global descriptor table is loaded.
    Gdt,
    /// The interrupt descriptor table is loaded.
    Idt,
    /// The memory map is looked up in the boot information.
    MemoryMap,
    /// The physical frame allocator is set up.
    PhysicalMemoryManager,
    /// All physical memory is mapped at the physical-memory offset.
    PhysicalMemory,
    /// The reserved low region is mapped at its own addresses.
    ReservedRegion,
    /// The pages of the heap are backed by frames.
    Heap,
    /// The heap allocator takes the heap.
    Allocator,
    /// The kernel is up and idles.
    Running,
}

/// The stages in their order.
pub open spec fn order() -> Seq<Stage> {
    seq![
        Stage::Metadata,
        Stage::Gdt,
        Stage::Idt,
        Stage::MemoryMap,
        Stage::PhysicalMemoryManager,
        Stage::PhysicalMemory,
        Stage::ReservedRegion,
        Stage::Heap,
        Stage::Allocator,
        Stage::Running,
    ]
}

/// The place of a stage in the order.
pub open spec fn place(stage: Stage) -> int {
    match stage {
        Stage::Metadata => 0,
        Stage::Gdt => 1,
        Stage::Idt => 2,
        Stage::MemoryMap => 3,
        Stage::PhysicalMemoryManager => 4,
        Stage::PhysicalMemory => 5,
        Stage::ReservedRegion => 6,
        Stage::Heap => 7,
        Stage::Allocator => 8,
        Stage::Running => 9,
    }
}

/// What the kernel reports when a stage fails. Once the kernel is up,
/// nothing is left to fail.
pub open spec fn failure_text(stage: Stage) -> Option<Seq<char>> {
    match stage {
        Stage::Metadata => Some("kernel failed to retrieve metadata"@),
        Stage::Gdt => Some("kernel failed to initialize GDT"@),
        Stage::Idt => Some("kernel failed to initialize IDT"@),
        Stage::MemoryMap => Some("the bootloader failed to provide memory map tag"@),
        Stage::PhysicalMemoryManager => Some(
            "kernel failed to initialize physical memory manager"@,
        ),
        Stage::PhysicalMemory => Some("kernel failed to map physical memory"@),
        Stage::ReservedRegion => Some("kernel failed to map reserved region"@),
        Stage::Heap => Some("kernel failed to allocate heap"@),
        Stage::Allocator => Some("kernel failed to initialize allocator"@),
        Stage::Running => None,
    }
}

impl Stage {
    /// The stage with which the bring-up starts.
    pub fn first() -> (stage: Stage)
        ensures
            stage == order()[0],
    {
        Stage::Metadata
    }

    /// The stage that follows, or `None` once the kernel is up.
    pub fn next(self) -> (following: Option<Stage>)
        ensures
            following.is_some() <==> self != Stage::Running,
            following matches Some(stage) ==> stage == order()[place(self) + 1],
    {
        match self {
            Stage::Metadata => Some(Stage::Gdt),
            Stage::Gdt => Some(Stage::Idt),
            Stage::Idt => Some(Stage::MemoryMap),
            Stage::MemoryMap => Some(Stage::PhysicalMemoryManager),
            Stage::PhysicalMemoryManager => Some(Stage::PhysicalMemory),
            Stage::PhysicalMemory => Some(Stage::ReservedRegion),
            Stage::ReservedRegion => Some(Stage::Heap),
            Stage::Heap => Some(Stage::Allocator),
            Stage::Allocator => Some(Stage::Running),
            Stage::Running => None,
        }
    }

    /// What the kernel reports when the stage fails, or `None` once the
    /// kernel is up.
    pub fn failure(self) -> (text: Option<&'static str>)
        ensures
            text.is_some() <==> failure_text(self).is_some(),
            text matches Some(t) ==> t@ == failure_text(self).unwrap(),
    {
        match self {
            Stage::Metadata => Some("kernel failed to retrieve metadata"),
            Stage::Gdt => Some("kernel failed to initialize GDT"),
            Stage::Idt => Some("kernel failed to initialize IDT"),
            Stage::MemoryMap => Some("the bootloader failed to provide memory map tag"),
            Stage::PhysicalMemoryManager => Some(
                "kernel failed to initialize physical memory manager",
            ),
            Stage::PhysicalMemory => Some("kernel failed to map physical memory"),
            Stage::ReservedRegion => Some("kernel failed to map reserved region"),
            Stage::Heap => Some("kernel failed to allocate heap"),
            Stage::Allocator => Some("kernel failed to initialize allocator"),
            Stage::Running => None,
        }
    }
}

/// Each stage lies at its place in the order.
pub proof fn lemma_place(stage: Stage)
    ensures
        0 <= place(stage) < order().len(),
        order()[place(stage)] == stage,
{
}

/// One step of the bring-up: after a stage that succeeded comes the next
/// stage; a stage that failed ends the bring-up with its report. Once the
/// kernel is up it stays up, whatever is reported.
pub fn init(stage: Stage, succeeded: bool) -> (step: Result<Stage, &'static str>)
    ensures
        step.is_ok() <==> succeeded || stage == Stage::Running,
        match step {
            Ok(following) => following == if stage == Stage::Running {
                Stage::Running
            } else {
                order()[place(stage) + 1]
            },
            Err(text) => Some(text@) == failure_text(stage),
        },
{
    if !succeeded {
        if let Some(text) = stage.failure() {
            return Err(text);
        }
    }
    match stage.next() {
        Some(following) => Ok(following),
        None => Ok(Stage::Running),
    }
}

} // verus!
