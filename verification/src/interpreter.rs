//! A minimal execution environment: seeds a linear-memory buffer from a
//! decoded module's data segments and locates the start function.
//! Instruction dispatch beyond that is out of scope; the initializer
//! returns once the start function is found.

use vstd::prelude::*;

use crate::instructions::Instructions;
use crate::module::WasmModule;
use crate::sections::SectionsView;
use crate::types::DataSegmentView;
use crate::types::Indecies;
use crate::types::SegmentMode;
use crate::types::SegmentModeView;

verus! {

/// Failures of the memory initializer.
#[derive(Debug, Clone, PartialEq)]
pub enum WasmInterpreterError {
    /// A segment write landed past the end of the memory buffer.
    ModifyMemoryOutOfBounds { offset: usize, data: Vec<u8>, failed_pos: usize, memory_len: usize },
    /// An active segment's offset expression did not start with an integer
    /// constant.
    InvalidMemorySegmentOffset(Instructions),
    /// The module has no start index, or no function for it.
    NoEntryPoint,
}

/// The memory offset a segment resolves to: passive segments resolve to 0;
/// active segments take their first offset instruction, an integer constant
/// reinterpreted as an unsigned machine word (an absent instruction yields
/// 0). Any other instruction is an initialization failure.
pub open spec fn segment_offset(mode: SegmentModeView) -> Option<int> {
    match mode {
        SegmentModeView::Passive => Some(0),
        SegmentModeView::Active { memory_index, offset } => {
            if offset.len() == 0 {
                Some(0)
            } else {
                match offset[0] {
                    Instructions::I32Const(k) => Some((k as usize) as int),
                    Instructions::I64Const(k) => Some((k as usize) as int),
                    _ => None,
                }
            }
        },
    }
}

/// The instruction that made a segment's offset unresolvable: the first of
/// its offset expression.
pub open spec fn first_offset_instr(mode: SegmentModeView) -> Instructions
    recommends
        segment_offset(mode) is None,
{
    match mode {
        SegmentModeView::Active { memory_index, offset } => offset[0],
        SegmentModeView::Passive => arbitrary(),
    }
}

/// `mem` with `data` copied in at `off`.
pub open spec fn write_bytes_at(mem: Seq<u8>, off: int, data: Seq<u8>) -> Seq<u8> {
    Seq::new(
        mem.len(),
        |i: int|
            if off <= i < off + data.len() {
                data[i - off]
            } else {
                mem[i]
            },
    )
}

/// The outcome of applying data segments to a memory, one segment at a
/// time in declaration order, stopping at the first failure. Each failure
/// carries the memory as it stands at that point: the earlier segments
/// applied, the failing one not at all.
pub ghost enum InitOutcome {
    /// Every segment applied, producing this memory.
    Complete { mem: Seq<u8> },
    /// A segment's offset expression began with `instr`, not an integer
    /// constant.
    InvalidOffset { instr: Instructions, mem: Seq<u8> },
    /// A segment resolved to `off` but its nonempty payload `data` reaches
    /// past the end of the memory; the payload's fitting prefix is written
    /// before the failure, byte for byte, as far as the memory reaches.
    DoesNotFit { off: int, data: Seq<u8>, mem: Seq<u8> },
}

/// Apply each segment in declaration order: resolve its offset, skip an
/// empty payload, copy a fitting one, and stop at the first segment whose
/// offset does not resolve or whose payload does not fit. A payload that
/// does not fit is still copied up to the end of the memory before the
/// failure is reported.
pub open spec fn apply_segments(segs: Seq<DataSegmentView>, mem: Seq<u8>) -> InitOutcome
    decreases segs.len(),
{
    if segs.len() == 0 {
        InitOutcome::Complete { mem }
    } else {
        match segment_offset(segs[0].mode) {
            None => InitOutcome::InvalidOffset {
                instr: first_offset_instr(segs[0].mode),
                mem,
            },
            Some(off) => {
                if segs[0].bytes.len() == 0 {
                    apply_segments(segs.skip(1), mem)
                } else if off + segs[0].bytes.len() <= mem.len() {
                    apply_segments(segs.skip(1), write_bytes_at(mem, off, segs[0].bytes))
                } else {
                    InitOutcome::DoesNotFit {
                        off,
                        data: segs[0].bytes,
                        mem: if off <= mem.len() {
                            write_bytes_at(mem, off, segs[0].bytes.take(mem.len() - off))
                        } else {
                            mem
                        },
                    }
                }
            },
        }
    }
}

/// The module names a start function and the function list has an entry
/// for it.
pub open spec fn start_valid(s: SectionsView) -> bool {
    match s.start {
        Some(Indecies::FuncIdx(i)) => i < s.functions.len(),
        _ => false,
    }
}

/// A decoded module together with the linear memory it initializes.
#[derive(Debug, Clone, PartialEq)]
pub struct WasmEnvironment {
    pub module: WasmModule,
    pub memory: Vec<u8>,
}

impl WasmEnvironment {
    /// An environment over a caller-provided memory buffer.
    pub fn new(module: WasmModule, memory: Vec<u8>) -> (r: WasmEnvironment)
        ensures
            r.module == module,
            r.memory == memory,
    {
        WasmEnvironment { module, memory }
    }

    /// Initialize the memory from the module's data segments in declaration
    /// order, then locate the start function. The memory's length never
    /// changes, and on every outcome the memory holds exactly what
    /// [`apply_segments`] says: the segments before the first failing one
    /// applied, and, for a payload that does not fit, its fitting prefix
    /// written byte for byte up to the end of the memory. Success is owed
    /// whenever every segment applies and the start index is valid; each
    /// failure returns the error the outcome prescribes, `NoEntryPoint`
    /// coming only after all segments applied.
    pub fn start(&mut self) -> (r: Result<(), WasmInterpreterError>)
        ensures
            final(self).module == old(self).module,
            final(self).memory@.len() == old(self).memory@.len(),
            match r {
                Ok(_) => {
                    &&& apply_segments(
                        old(self).module.sections.data.deep_view(),
                        old(self).memory@,
                    ) == (InitOutcome::Complete { mem: final(self).memory@ })
                    &&& start_valid(old(self).module.deep_view())
                },
                Err(e) => match apply_segments(
                    old(self).module.sections.data.deep_view(),
                    old(self).memory@,
                ) {
                    InitOutcome::Complete { mem } => {
                        &&& final(self).memory@ == mem
                        &&& e == WasmInterpreterError::NoEntryPoint
                        &&& !start_valid(old(self).module.deep_view())
                    },
                    InitOutcome::InvalidOffset { instr, mem } => {
                        &&& final(self).memory@ == mem
                        &&& e == WasmInterpreterError::InvalidMemorySegmentOffset(instr)
                    },
                    InitOutcome::DoesNotFit { off, data, mem } => {
                        &&& final(self).memory@ == mem
                        &&& (e matches WasmInterpreterError::ModifyMemoryOutOfBounds {
                            offset,
                            data: payload,
                            failed_pos,
                            memory_len,
                        } && offset as int == off && payload@ == data && memory_len as int
                            == mem.len() && failed_pos as int == (if off <= mem.len() {
                            mem.len() as int
                        } else {
                            off
                        }))
                    },
                },
            },
    {
        let ghost segs = self.module.sections.data.deep_view();
        let ghost mem0 = self.memory@;
        let seg_count = self.module.sections.data.len();
        let mut si: usize = 0;
        proof {
            assert(segs.skip(0) =~= segs);
        }
        while si < seg_count
            invariant
                si <= seg_count,
                seg_count == self.module.sections.data@.len(),
                self.module == old(self).module,
                segs == self.module.sections.data.deep_view(),
                segs.len() == seg_count,
                mem0 == old(self).memory@,
                self.memory@.len() == mem0.len(),
                apply_segments(segs, mem0) == apply_segments(segs.skip(si as int), self.memory@),
            decreases seg_count - si,
        {
            let ghost seg_view = segs[si as int];
            let ghost mem_i = self.memory@;
            proof {
                assert(seg_view == self.module.sections.data@[si as int].deep_view());
                assert(segs.skip(si as int)[0] == seg_view);
                assert(segs.skip(si as int).skip(1) =~= segs.skip(si + 1));
            }
            let offset: usize = match &self.module.sections.data[si].mode {
                SegmentMode::Passive => 0,
                SegmentMode::Active { memory_index: _, offset } => {
                    if offset.len() == 0 {
                        0
                    } else {
                        match offset[0] {
                            Instructions::I32Const(num) => #[verifier::truncate] (num as usize),
                            Instructions::I64Const(num) => #[verifier::truncate] (num as usize),
                            instr => {
                                proof {
                                    assert(segment_offset(seg_view.mode) is None);
                                    assert(first_offset_instr(seg_view.mode) == instr);
                                }
                                return Err(
                                    WasmInterpreterError::InvalidMemorySegmentOffset(instr),
                                );
                            },
                        }
                    }
                },
            };
            proof {
                assert(segment_offset(seg_view.mode) == Some(offset as int));
            }
            let data_len = self.module.sections.data[si].bytes.len();
            let mem_len = self.memory.len();
            if data_len > 0 {
                if offset > mem_len || data_len > mem_len - offset {
                    proof {
                        assert(offset + seg_view.bytes.len() > mem_i.len());
                        assert(seg_view.bytes =~= self.module.sections.data@[si as int].bytes@);
                        assert(self.memory@ =~= write_bytes_at(
                            mem_i,
                            offset as int,
                            seg_view.bytes.take(0),
                        ));
                    }
                    // The fitting prefix is still copied, one byte at a
                    // time, exactly as far as the memory reaches.
                    let prefix = if offset > mem_len {
                        0
                    } else {
                        mem_len - offset
                    };
                    let mut i: usize = 0;
                    while i < prefix
                        invariant
                            i <= prefix,
                            prefix < data_len,
                            self.module == old(self).module,
                            seg_count == self.module.sections.data@.len(),
                            si < seg_count,
                            segs == self.module.sections.data.deep_view(),
                            seg_view == segs[si as int],
                            data_len == seg_view.bytes.len(),
                            prefix == 0 || offset + prefix <= mem_i.len(),
                            mem_i.len() <= usize::MAX,
                            self.memory@.len() == mem_i.len(),
                            self.memory@ == write_bytes_at(
                                mem_i,
                                offset as int,
                                seg_view.bytes.take(i as int),
                            ),
                        decreases prefix - i,
                    {
                        let byte = self.module.sections.data[si].bytes[i];
                        self.memory[offset + i] = byte;
                        i = i + 1;
                        proof {
                            assert(seg_view.bytes[i - 1] == byte);
                            assert(self.memory@ =~= write_bytes_at(
                                mem_i,
                                offset as int,
                                seg_view.bytes.take(i as int),
                            ));
                        }
                    }
                    proof {
                        if offset > mem_i.len() {
                            assert(self.memory@ =~= mem_i);
                        }
                    }
                    let failed_pos = if offset > mem_len {
                        offset
                    } else {
                        mem_len
                    };
                    let payload = vstd::slice::slice_to_vec(
                        self.module.sections.data[si].bytes.as_slice(),
                    );
                    return Err(WasmInterpreterError::ModifyMemoryOutOfBounds {
                        offset,
                        data: payload,
                        failed_pos,
                        memory_len: mem_len,
                    });
                }
                let mut i: usize = 0;
                while i < data_len
                    invariant
                        i <= data_len,
                        self.module == old(self).module,
                        seg_count == self.module.sections.data@.len(),
                        si < seg_count,
                        segs == self.module.sections.data.deep_view(),
                        seg_view == segs[si as int],
                        data_len == seg_view.bytes.len(),
                        offset + data_len <= mem_i.len(),
                        mem_i.len() <= usize::MAX,
                        self.memory@.len() == mem_i.len(),
                        self.memory@ == write_bytes_at(
                            mem_i,
                            offset as int,
                            seg_view.bytes.take(i as int),
                        ),
                    decreases data_len - i,
                {
                    let byte = self.module.sections.data[si].bytes[i];
                    self.memory[offset + i] = byte;
                    i = i + 1;
                    proof {
                        assert(seg_view.bytes[i - 1] == byte);
                        assert(self.memory@ =~= write_bytes_at(
                            mem_i,
                            offset as int,
                            seg_view.bytes.take(i as int),
                        ));
                    }
                }
                proof {
                    assert(seg_view.bytes.take(data_len as int) =~= seg_view.bytes);
                    assert(apply_segments(segs.skip(si as int), mem_i) == apply_segments(
                        segs.skip(si + 1),
                        self.memory@,
                    ));
                }
            } else {
                proof {
                    assert(apply_segments(segs.skip(si as int), mem_i) == apply_segments(
                        segs.skip(si + 1),
                        self.memory@,
                    ));
                }
            }
            si = si + 1;
        }
        proof {
            assert(segs.skip(seg_count as int) =~= Seq::<DataSegmentView>::empty());
            assert(apply_segments(segs, mem0) == (InitOutcome::Complete { mem: self.memory@ }));
        }
        let valid = match self.module.sections.start {
            Some(Indecies::FuncIdx(idx)) => (idx as usize) < self.module.sections.functions.len(),
            _ => false,
        };
        if !valid {
            return Err(WasmInterpreterError::NoEntryPoint);
        }
        Ok(())
    }
}

} // verus!
