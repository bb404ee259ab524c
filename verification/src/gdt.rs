//! The global descriptor table: its entries, and the selectors that the
//! segment registers are loaded with.

use vstd::prelude::*;

verus! {

/// Size of the stack on which the double-fault handler runs.
pub const STACK_SIZE: usize = 8192;

/// The entries of the table behind the null descriptor, in their order.
#[derive(Clone, Copy, Debug, PartialEq, Eq, Structural)]
pub enum GDTEntry {
    KernelCodeSegment,
    KernelDataSegment,
    TaskStateSegment,
}

impl GDTEntry {
    /// The place of the entry among the selectors.
    pub fn index(self) -> (index: usize)
        ensures
            index == match self {
                GDTEntry::KernelCodeSegment => 0int,
                GDTEntry::KernelDataSegment => 1int,
                GDTEntry::TaskStateSegment => 2int,
            },
    {
        match self {
            GDTEntry::KernelCodeSegment => 0,
            GDTEntry::KernelDataSegment => 1,
            GDTEntry::TaskStateSegment => 2,
        }
    }
}

/// The registers that are loaded from the table.
#[derive(Clone, Copy, Debug, PartialEq, Eq, Structural)]
pub enum Register {
    CS,
    DS,
    ES,
    FS,
    GS,
    SS,
    /// The task register.
    TR,
}

/// One load: the register and the entry whose selector it gets, or `None`
/// for the null selector.
#[derive(Clone, Copy, Debug, PartialEq, Eq, Structural)]
pub struct Load {
    pub register: Register,
    pub entry: Option<GDTEntry>,
}

/// The loads that follow the loading of the table, in their order.
pub open spec fn loads() -> Seq<Load> {
    seq![
        Load { register: Register::CS, entry: Some(GDTEntry::KernelCodeSegment) },
        Load { register: Register::DS, entry: Some(GDTEntry::KernelDataSegment) },
        Load { register: Register::ES, entry: Some(GDTEntry::KernelDataSegment) },
        Load { register: Register::FS, entry: Some(GDTEntry::KernelDataSegment) },
        Load { register: Register::GS, entry: Some(GDTEntry::KernelDataSegment) },
        Load { register: Register::SS, entry: None },
        Load { register: Register::TR, entry: Some(GDTEntry::TaskStateSegment) },
    ]
}

/// What is loaded once the table is in place: the code segment into CS,
/// the data segment into DS, ES, FS and GS, the null selector into SS,
/// which long mode allows, and the task state segment into the task
/// register.
pub fn init() -> (plan: Vec<Load>)
    ensures
        plan@ == loads(),
{
    let mut plan: Vec<Load> = Vec::new();
    plan.push(Load { register: Register::CS, entry: Some(GDTEntry::KernelCodeSegment) });
    plan.push(Load { register: Register::DS, entry: Some(GDTEntry::KernelDataSegment) });
    plan.push(Load { register: Register::ES, entry: Some(GDTEntry::KernelDataSegment) });
    plan.push(Load { register: Register::FS, entry: Some(GDTEntry::KernelDataSegment) });
    plan.push(Load { register: Register::GS, entry: Some(GDTEntry::KernelDataSegment) });
    plan.push(Load { register: Register::SS, entry: None });
    plan.push(Load { register: Register::TR, entry: Some(GDTEntry::TaskStateSegment) });
    proof {
        assert(plan@ =~= loads());
    }
    plan
}

} // verus!
