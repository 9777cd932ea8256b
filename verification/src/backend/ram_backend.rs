//! A journal backend held in memory, which records what is asked of it and fails on demand.

use vstd::prelude::*;
use crate::backend::faults::{BlockFaults, ByteFaults, FaultsView};
use crate::bytes;
use crate::storage::backend::{BackendCall, JournalBackend};
use crate::storage::error::StorageError;
use crate::storage::medium::{self, MediumWrite, BLOCK_SIZE};

verus! {

/// One access that a `RamBackend` was asked for.
#[derive(Clone, Debug, PartialEq, Eq)]
pub enum BackendOp {
    ReadPhysicalBlock { block_index: u32 },
    WritePhysicalBlock { block_index: u32, data: Vec<u8> },
    ReadBytes { address: usize, len: usize },
    WriteBytes { address: usize, data: Vec<u8> },
}

impl View for BackendOp {
    type V = BackendCall;

    open spec fn view(&self) -> BackendCall {
        match *self {
            BackendOp::ReadPhysicalBlock { block_index } => BackendCall::ReadPhysicalBlock {
                block_index,
            },
            BackendOp::WritePhysicalBlock { block_index, data } => {
                BackendCall::WritePhysicalBlock { block_index, data: data@ }
            },
            BackendOp::ReadBytes { address, len } => BackendCall::ReadBytes {
                address,
                len: len as nat,
            },
            BackendOp::WriteBytes { address, data } => BackendCall::WriteBytes {
                address,
                data: data@,
            },
        }
    }
}

/// A `RamBackend` as a value: its bytes, the errors lined up, and the accesses it recorded.
#[verifier::ext_equal]
pub struct RamBackendView {
    pub bytes: Seq<u8>,
    pub write_protected: bool,
    pub read_block_faults: FaultsView<u32>,
    pub write_block_faults: FaultsView<u32>,
    pub read_bytes_faults: FaultsView<usize>,
    pub write_bytes_faults: FaultsView<usize>,
    pub operations: Seq<BackendCall>,
}

impl RamBackendView {
    /// The number of whole blocks.
    pub open spec fn blocks(self) -> int {
        self.bytes.len() as int / BLOCK_SIZE as int
    }

    /// What reading block `block_index` answers.
    pub open spec fn read_block_result(self, block_index: u32) -> Result<(), StorageError> {
        match self.read_block_faults.met_by(block_index) {
            Some(error) => Err(error),
            None => if block_index < self.blocks() {
                Ok(())
            } else {
                Err(StorageError::MediumError)
            },
        }
    }

    /// What writing block `block_index` answers.
    pub open spec fn write_block_result(self, block_index: u32) -> Result<(), StorageError> {
        if self.write_protected {
            Err(StorageError::WriteProtect)
        } else {
            match self.write_block_faults.met_by(block_index) {
                Some(error) => Err(error),
                None => if block_index < self.blocks() {
                    Ok(())
                } else {
                    Err(StorageError::MediumError)
                },
            }
        }
    }

    /// What reading `len` bytes from `address` answers.
    pub open spec fn read_bytes_result(self, address: usize, len: nat) -> Result<(), StorageError> {
        match self.read_bytes_faults.met_by(address) {
            Some(error) => Err(error),
            None => if address + len <= self.bytes.len() {
                Ok(())
            } else {
                Err(StorageError::MediumError)
            },
        }
    }

    /// What writing `len` bytes to `address` answers.
    pub open spec fn write_bytes_result(self, address: usize, len: nat) -> Result<
        (),
        StorageError,
    > {
        if self.write_protected {
            Err(StorageError::WriteProtect)
        } else {
            match self.write_bytes_faults.met_by(address) {
                Some(error) => Err(error),
                None => if address + len <= self.bytes.len() {
                    Ok(())
                } else {
                    Err(StorageError::MediumError)
                },
            }
        }
    }
}

/// A byte-addressable medium in memory.
pub struct RamBackend {
    bytes: Vec<u8>,
    write_protected: bool,
    read_block_faults: BlockFaults,
    write_block_faults: BlockFaults,
    read_bytes_faults: ByteFaults,
    write_bytes_faults: ByteFaults,
    operations: Vec<BackendOp>,
    call_log: Ghost<Seq<BackendCall>>,
    write_log: Ghost<Seq<MediumWrite>>,
    fault_log: Ghost<Seq<StorageError>>,
    failed_log: Ghost<Seq<int>>,
    cleared: Ghost<nat>,
}

impl View for RamBackend {
    type V = RamBackendView;

    closed spec fn view(&self) -> RamBackendView {
        RamBackendView {
            bytes: self.bytes@,
            write_protected: self.write_protected,
            read_block_faults: self.read_block_faults@,
            write_block_faults: self.write_block_faults@,
            read_bytes_faults: self.read_bytes_faults@,
            write_bytes_faults: self.write_bytes_faults@,
            operations: Seq::new(
                self.operations@.len(),
                |i: int| self.operations@[i]@,
            ),
        }
    }
}

impl RamBackend {
    /// A medium of `physical_blocks` zeroed blocks, with nothing lined up.
    pub fn new(physical_blocks: u32) -> (backend: Self)
        requires
            physical_blocks * BLOCK_SIZE <= usize::MAX,
        ensures
            backend.wf(),
            backend.healthy(),
            backend@.bytes == Seq::new((physical_blocks * BLOCK_SIZE) as nat, |i: int| 0u8),
            !backend@.write_protected,
            backend@.operations.len() == 0,
            backend.calls().len() == 0,
            backend.writes().len() == 0,
            backend.faults().len() == 0,
            backend.failed_calls().len() == 0,
            backend.forgotten() == 0,
    {
        let bytes: Vec<u8> = vec![0u8; physical_blocks as usize * BLOCK_SIZE];
        let backend = RamBackend {
            bytes,
            write_protected: false,
            read_block_faults: BlockFaults::new(),
            write_block_faults: BlockFaults::new(),
            read_bytes_faults: ByteFaults::new(),
            write_bytes_faults: ByteFaults::new(),
            operations: Vec::new(),
            call_log: Ghost(Seq::empty()),
            write_log: Ghost(Seq::empty()),
            fault_log: Ghost(Seq::empty()),
            failed_log: Ghost(Seq::empty()),
            cleared: Ghost(0),
        };
        assert(backend@.bytes =~= Seq::new((physical_blocks * BLOCK_SIZE) as nat, |i: int| 0u8));
        backend
    }

    /// Whether the backend holds whole blocks, few enough to number them.
    pub open spec fn whole_blocks(&self) -> bool {
        self@.bytes.len() == self@.blocks() * BLOCK_SIZE && self@.blocks() <= u32::MAX
    }

    /// Whether the recorded accesses are the calls made since the record was last cleared.
    pub open spec fn recorded(&self) -> bool {
        &&& self@.operations.len() + self.forgotten() == self.calls().len()
        &&& forall|i: int|
            0 <= i < self@.operations.len() ==> #[trigger] self@.operations[i]
                == self.calls()[self.forgotten() + i]
    }

    pub fn set_write_protected(&mut self, write_protected: bool)
        ensures
            final(self)@ == (RamBackendView { write_protected, ..old(self)@ }),
            final(self).calls() == old(self).calls(),
            final(self).writes() == old(self).writes(),
            final(self).faults() == old(self).faults(),
            final(self).failed_calls() == old(self).failed_calls(),
            final(self).forgotten() == old(self).forgotten(),
    {
        self.write_protected = write_protected;
    }

    pub fn inject_next_read_block_error(&mut self, error: StorageError)
        ensures
            final(self)@ == (RamBackendView {
                read_block_faults: old(self)@.read_block_faults.with_next(error),
                ..old(self)@
            }),
            final(self).calls() == old(self).calls(),
            final(self).writes() == old(self).writes(),
            final(self).faults() == old(self).faults(),
            final(self).failed_calls() == old(self).failed_calls(),
            final(self).forgotten() == old(self).forgotten(),
    {
        self.read_block_faults.inject_next(error);
    }

    pub fn inject_next_write_block_error(&mut self, error: StorageError)
        ensures
            final(self)@ == (RamBackendView {
                write_block_faults: old(self)@.write_block_faults.with_next(error),
                ..old(self)@
            }),
            final(self).calls() == old(self).calls(),
            final(self).writes() == old(self).writes(),
            final(self).faults() == old(self).faults(),
            final(self).failed_calls() == old(self).failed_calls(),
            final(self).forgotten() == old(self).forgotten(),
    {
        self.write_block_faults.inject_next(error);
    }

    pub fn inject_next_read_bytes_error(&mut self, error: StorageError)
        ensures
            final(self)@ == (RamBackendView {
                read_bytes_faults: old(self)@.read_bytes_faults.with_next(error),
                ..old(self)@
            }),
            final(self).calls() == old(self).calls(),
            final(self).writes() == old(self).writes(),
            final(self).faults() == old(self).faults(),
            final(self).failed_calls() == old(self).failed_calls(),
            final(self).forgotten() == old(self).forgotten(),
    {
        self.read_bytes_faults.inject_next(error);
    }

    pub fn inject_next_write_bytes_error(&mut self, error: StorageError)
        ensures
            final(self)@ == (RamBackendView {
                write_bytes_faults: old(self)@.write_bytes_faults.with_next(error),
                ..old(self)@
            }),
            final(self).calls() == old(self).calls(),
            final(self).writes() == old(self).writes(),
            final(self).faults() == old(self).faults(),
            final(self).failed_calls() == old(self).failed_calls(),
            final(self).forgotten() == old(self).forgotten(),
    {
        self.write_bytes_faults.inject_next(error);
    }

    pub fn inject_read_block_error_at(&mut self, block_index: u32, error: StorageError)
        ensures
            final(self)@ == (RamBackendView {
                read_block_faults: old(self)@.read_block_faults.with_at(block_index, error),
                ..old(self)@
            }),
            final(self).calls() == old(self).calls(),
            final(self).writes() == old(self).writes(),
            final(self).faults() == old(self).faults(),
            final(self).failed_calls() == old(self).failed_calls(),
            final(self).forgotten() == old(self).forgotten(),
    {
        self.read_block_faults.inject_at(block_index, error);
    }

    pub fn inject_write_block_error_at(&mut self, block_index: u32, error: StorageError)
        ensures
            final(self)@ == (RamBackendView {
                write_block_faults: old(self)@.write_block_faults.with_at(block_index, error),
                ..old(self)@
            }),
            final(self).calls() == old(self).calls(),
            final(self).writes() == old(self).writes(),
            final(self).faults() == old(self).faults(),
            final(self).failed_calls() == old(self).failed_calls(),
            final(self).forgotten() == old(self).forgotten(),
    {
        self.write_block_faults.inject_at(block_index, error);
    }

    pub fn inject_read_bytes_error_at(&mut self, address: usize, error: StorageError)
        ensures
            final(self)@ == (RamBackendView {
                read_bytes_faults: old(self)@.read_bytes_faults.with_at(address, error),
                ..old(self)@
            }),
            final(self).calls() == old(self).calls(),
            final(self).writes() == old(self).writes(),
            final(self).faults() == old(self).faults(),
            final(self).failed_calls() == old(self).failed_calls(),
            final(self).forgotten() == old(self).forgotten(),
    {
        self.read_bytes_faults.inject_at(address, error);
    }

    pub fn inject_write_bytes_error_at(&mut self, address: usize, error: StorageError)
        ensures
            final(self)@ == (RamBackendView {
                write_bytes_faults: old(self)@.write_bytes_faults.with_at(address, error),
                ..old(self)@
            }),
            final(self).calls() == old(self).calls(),
            final(self).writes() == old(self).writes(),
            final(self).faults() == old(self).faults(),
            final(self).failed_calls() == old(self).failed_calls(),
            final(self).forgotten() == old(self).forgotten(),
    {
        self.write_bytes_faults.inject_at(address, error);
    }

    /// Puts `data` into a block without recording an access.
    pub fn set_physical_block(&mut self, block_index: u32, data: [u8; BLOCK_SIZE])
        requires
            (block_index + 1) * BLOCK_SIZE <= old(self)@.bytes.len(),
        ensures
            final(self)@ == (RamBackendView {
                bytes: MediumWrite::block(block_index as int, data@).apply(old(self)@.bytes),
                ..old(self)@
            }),
            final(self).calls() == old(self).calls(),
            final(self).writes() == old(self).writes(),
            final(self).faults() == old(self).faults(),
            final(self).failed_calls() == old(self).failed_calls(),
            final(self).forgotten() == old(self).forgotten(),
    {
        let len = self.bytes.len();
        assert(block_index * BLOCK_SIZE + BLOCK_SIZE <= len);
        self.store(block_index as usize * BLOCK_SIZE, &data);
    }

    /// The contents of a block, without recording an access.
    pub fn physical_block(&self, block_index: u32) -> (data: [u8; BLOCK_SIZE])
        requires
            (block_index + 1) * BLOCK_SIZE <= self@.bytes.len(),
        ensures
            data@ == medium::block_at(self@.bytes, block_index as int),
    {
        let len = self.bytes.len();
        assert(block_index * BLOCK_SIZE + BLOCK_SIZE <= len);
        let mut data = [0u8; BLOCK_SIZE];
        self.load(block_index as usize * BLOCK_SIZE, &mut data);
        data
    }

    /// The `len` bytes from `address` on, without recording an access.
    pub fn bytes_at(&self, address: usize, len: usize) -> (data: Vec<u8>)
        requires
            address + len <= self@.bytes.len(),
        ensures
            data@ == self@.bytes.subrange(address as int, address + len),
    {
        let end = self.bytes.len();
        assert(address + len <= end);
        vstd::slice::slice_to_vec(
            vstd::slice::slice_subrange(self.bytes.as_slice(), address, address + len),
        )
    }

    /// The accesses recorded since the last `clear_operations`.
    pub fn operations(&self) -> (ops: &[BackendOp])
        ensures
            ops@.len() == self@.operations.len(),
            forall|i: int| 0 <= i < ops@.len() ==> (#[trigger] ops@[i])@ == self@.operations[i],
    {
        self.operations.as_slice()
    }

    pub fn clear_operations(&mut self)
        ensures
            final(self)@ == (RamBackendView { operations: Seq::empty(), ..old(self)@ }),
            final(self).calls() == old(self).calls(),
            final(self).writes() == old(self).writes(),
            final(self).faults() == old(self).faults(),
            final(self).failed_calls() == old(self).failed_calls(),
            final(self).forgotten() == old(self).calls().len(),
    {
        self.operations.clear();
        self.cleared = Ghost(self.call_log@.len());
        assert(self@.operations =~= Seq::<BackendCall>::empty());
    }

    fn physical_blocks(&self) -> (n: u32)
        requires
            self.whole_blocks(),
        ensures
            n == self@.blocks(),
    {
        (self.bytes.len() / BLOCK_SIZE) as u32
    }

    fn check_block_range(&self, block_index: u32) -> (r: Result<usize, StorageError>)
        requires
            self.whole_blocks(),
        ensures
            match r {
                Ok(start) => block_index < self@.blocks() && start == block_index * BLOCK_SIZE
                    && start + BLOCK_SIZE <= self@.bytes.len(),
                Err(error) => block_index >= self@.blocks() && error == StorageError::MediumError,
            },
    {
        if block_index >= self.physical_blocks() {
            return Err(StorageError::MediumError);
        }
        let len = self.bytes.len();
        assert(block_index * BLOCK_SIZE + BLOCK_SIZE <= len);
        Ok(block_index as usize * BLOCK_SIZE)
    }

    fn check_bytes_range(&self, address: usize, len: usize) -> (r: Result<(), StorageError>)
        ensures
            match r {
                Ok(_) => address + len <= self@.bytes.len(),
                Err(error) => address + len > self@.bytes.len() && error
                    == StorageError::MediumError,
            },
    {
        match address.checked_add(len) {
            Some(end) => if end > self.bytes.len() {
                Err(StorageError::MediumError)
            } else {
                Ok(())
            },
            None => {
                let _ = self.bytes.len();
                Err(StorageError::MediumError)
            },
        }
    }

    fn load(&self, start: usize, out: &mut [u8])
        requires
            start + old(out)@.len() <= self@.bytes.len(),
        ensures
            final(out)@ == self@.bytes.subrange(start as int, start + old(out)@.len()),
    {
        let len = self.bytes.len();
        assert(start + out@.len() <= len);
        let source = vstd::slice::slice_subrange(self.bytes.as_slice(), start, start + out.len());
        bytes::put(out, 0, source);
        assert(out@ =~= self@.bytes.subrange(start as int, start + old(out)@.len()));
    }

    fn store(&mut self, start: usize, data: &[u8])
        requires
            start + data@.len() <= old(self)@.bytes.len(),
        ensures
            final(self)@ == (RamBackendView {
                bytes: bytes::splice(old(self)@.bytes, start as int, data@),
                ..old(self)@
            }),
            final(self).calls() == old(self).calls(),
            final(self).writes() == old(self).writes(),
            final(self).faults() == old(self).faults(),
            final(self).failed_calls() == old(self).failed_calls(),
            final(self).forgotten() == old(self).forgotten(),
    {
        bytes::put(self.bytes.as_mut_slice(), start, data);
    }

    /// Logs that the last call failed.
    fn note_fault(&mut self, Ghost(error): Ghost<StorageError>)
        ensures
            final(self)@ == old(self)@,
            final(self).calls() == old(self).calls(),
            final(self).writes() == old(self).writes(),
            final(self).faults() == old(self).faults().push(error),
            final(self).failed_calls() == old(self).failed_calls().push(
                old(self).calls().len() - 1,
            ),
            final(self).forgotten() == old(self).forgotten(),
    {
        self.fault_log = Ghost(self.fault_log@.push(error));
        self.failed_log = Ghost(self.failed_log@.push(self.call_log@.len() - 1));
    }

    fn record(&mut self, op: BackendOp)
        ensures
            final(self)@ == (RamBackendView {
                operations: old(self)@.operations.push(op@),
                ..old(self)@
            }),
            final(self).calls() == old(self).calls().push(op@),
            final(self).writes() == old(self).writes(),
            final(self).faults() == old(self).faults(),
            final(self).failed_calls() == old(self).failed_calls(),
            final(self).forgotten() == old(self).forgotten(),
    {
        self.call_log = Ghost(self.call_log@.push(op@));
        self.operations.push(op);
        assert(self@.operations =~= old(self)@.operations.push(op@));
    }
}

impl JournalBackend for RamBackend {
    open spec fn wf(&self) -> bool {
        self.whole_blocks() && self.recorded()
    }

    open spec fn medium(&self) -> Seq<u8> {
        self@.bytes
    }

    open spec fn healthy(&self) -> bool {
        &&& !self@.write_protected
        &&& self@.read_block_faults.quiet()
        &&& self@.write_block_faults.quiet()
        &&& self@.read_bytes_faults.quiet()
        &&& self@.write_bytes_faults.quiet()
    }

    closed spec fn calls(&self) -> Seq<BackendCall> {
        self.call_log@
    }

    closed spec fn writes(&self) -> Seq<MediumWrite> {
        self.write_log@
    }

    closed spec fn faults(&self) -> Seq<StorageError> {
        self.fault_log@
    }

    closed spec fn failed_calls(&self) -> Seq<int> {
        self.failed_log@
    }

    closed spec fn forgotten(&self) -> nat {
        self.cleared@
    }

    fn physical_block_count(&self) -> (n: u32) {
        self.physical_blocks()
    }

    fn read_physical_block(&mut self, block_index: u32, out: &mut [u8; BLOCK_SIZE]) -> (r: Result<
        (),
        StorageError,
    >)
        ensures
            r == old(self)@.read_block_result(block_index),
            final(self)@ == (RamBackendView {
                read_block_faults: old(self)@.read_block_faults.spent_by(block_index),
                operations: old(self)@.operations.push(
                    BackendCall::ReadPhysicalBlock { block_index },
                ),
                ..old(self)@
            }),
            r is Err ==> final(out)@ == old(out)@,
    {
        self.record(BackendOp::ReadPhysicalBlock { block_index });
        if let Some(error) = self.read_block_faults.consume(block_index) {
            self.note_fault(Ghost(error));
            return Err(error);
        }
        match self.check_block_range(block_index) {
            Ok(start) => {
                self.load(start, out);
                Ok(())
            },
            Err(error) => {
                self.note_fault(Ghost(error));
                Err(error)
            },
        }
    }

    fn write_physical_block(&mut self, block_index: u32, data: &[u8; BLOCK_SIZE]) -> (r: Result<
        (),
        StorageError,
    >)
        ensures
            r == old(self)@.write_block_result(block_index),
            final(self)@ == (RamBackendView {
                bytes: if r is Ok {
                    MediumWrite::block(block_index as int, data@).apply(old(self)@.bytes)
                } else {
                    old(self)@.bytes
                },
                write_block_faults: if old(self)@.write_protected {
                    old(self)@.write_block_faults
                } else {
                    old(self)@.write_block_faults.spent_by(block_index)
                },
                operations: old(self)@.operations.push(
                    BackendCall::WritePhysicalBlock { block_index, data: data@ },
                ),
                ..old(self)@
            }),
    {
        self.record(
            BackendOp::WritePhysicalBlock {
                block_index,
                data: vstd::slice::slice_to_vec(data.as_slice()),
            },
        );
        self.write_log = Ghost(self.write_log@.push(MediumWrite::block(block_index as int, data@)));
        if self.write_protected {
            self.note_fault(Ghost(StorageError::WriteProtect));
            return Err(StorageError::WriteProtect);
        }
        if let Some(error) = self.write_block_faults.consume(block_index) {
            self.note_fault(Ghost(error));
            return Err(error);
        }
        match self.check_block_range(block_index) {
            Ok(start) => {
                self.store(start, data);
                Ok(())
            },
            Err(error) => {
                self.note_fault(Ghost(error));
                Err(error)
            },
        }
    }

    fn read_bytes(&mut self, address: usize, out: &mut [u8]) -> (r: Result<(), StorageError>)
        ensures
            r == old(self)@.read_bytes_result(address, old(out)@.len()),
            final(self)@ == (RamBackendView {
                read_bytes_faults: old(self)@.read_bytes_faults.spent_by(address),
                operations: old(self)@.operations.push(
                    BackendCall::ReadBytes { address, len: old(out)@.len() },
                ),
                ..old(self)@
            }),
            r is Err ==> final(out)@ == old(out)@,
    {
        self.record(BackendOp::ReadBytes { address, len: out.len() });
        if let Some(error) = self.read_bytes_faults.consume(address) {
            self.note_fault(Ghost(error));
            return Err(error);
        }
        match self.check_bytes_range(address, out.len()) {
            Ok(()) => {
                self.load(address, out);
                Ok(())
            },
            Err(error) => {
                self.note_fault(Ghost(error));
                Err(error)
            },
        }
    }

    fn write_bytes(&mut self, address: usize, data: &[u8]) -> (r: Result<(), StorageError>)
        ensures
            r == old(self)@.write_bytes_result(address, data@.len()),
            final(self)@ == (RamBackendView {
                bytes: if r is Ok {
                    bytes::splice(old(self)@.bytes, address as int, data@)
                } else {
                    old(self)@.bytes
                },
                write_bytes_faults: if old(self)@.write_protected {
                    old(self)@.write_bytes_faults
                } else {
                    old(self)@.write_bytes_faults.spent_by(address)
                },
                operations: old(self)@.operations.push(
                    BackendCall::WriteBytes { address, data: data@ },
                ),
                ..old(self)@
            }),
    {
        self.record(BackendOp::WriteBytes { address, data: vstd::slice::slice_to_vec(data) });
        self.write_log = Ghost(
            self.write_log@.push(MediumWrite { address: address as int, data: data@ }),
        );
        if self.write_protected {
            self.note_fault(Ghost(StorageError::WriteProtect));
            return Err(StorageError::WriteProtect);
        }
        if let Some(error) = self.write_bytes_faults.consume(address) {
            self.note_fault(Ghost(error));
            return Err(error);
        }
        match self.check_bytes_range(address, data.len()) {
            Ok(()) => {
                self.store(address, data);
                Ok(())
            },
            Err(error) => {
                self.note_fault(Ghost(error));
                Err(error)
            },
        }
    }
}

} // verus!
