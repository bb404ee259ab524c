//! The interrupt descriptor table: which vectors have a handler, and on
//! which stack each handler runs.

use vstd::prelude::*;
use crate::exceptions::{
    BreakpointException,
    DivisionError,
    DoubleFault,
    GeneralProtectionFault,
    PageFault,
};

verus! {

/// One gate of the table: the vector and, where the handler runs on a
/// stack of its own, the entry of the interrupt stack table.
#[derive(Clone, Copy, Debug, PartialEq, Eq, Structural)]
pub struct Gate {
    pub vector: u8,
    pub stack_index: Option<u16>,
}

/// The gates of the table.
pub open spec fn gates() -> Seq<Gate> {
    seq![
        Gate { vector: 0x00, stack_index: None },
        Gate { vector: 0x03, stack_index: None },
        Gate { vector: 0x08, stack_index: Some(0u16) },
        Gate { vector: 0x0D, stack_index: None },
        Gate { vector: 0x0E, stack_index: None },
    ]
}

/// The gates that the kernel installs: division error, breakpoint, double
/// fault on the first interrupt stack, general protection fault and page
/// fault.
pub fn init() -> (table: Vec<Gate>)
    ensures
        table@ == gates(),
{
    let mut table: Vec<Gate> = Vec::new();
    table.push(Gate { vector: DivisionError::CODE, stack_index: None });
    table.push(Gate { vector: BreakpointException::CODE, stack_index: None });
    table.push(Gate { vector: DoubleFault::CODE, stack_index: Some(DoubleFault::IST_INDEX as u16) });
    table.push(Gate { vector: GeneralProtectionFault::CODE, stack_index: None });
    table.push(Gate { vector: PageFault::CODE, stack_index: None });
    proof {
        assert(table@ =~= gates());
    }
    table
}

} // verus!
