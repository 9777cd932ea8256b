//! Block storage held in memory, which fails on demand.

use vstd::prelude::*;
use crate::backend::faults::{BlockFaults, FaultsView};
use crate::storage::block::BlockStorage;
use crate::storage::error::StorageError;
use crate::storage::medium::BLOCK_SIZE;

verus! {

/// A `RamStorage` as a value: its blocks, its switches, and the errors lined up.
#[verifier::ext_equal]
pub struct RamStorageView {
    pub blocks: Seq<Seq<u8>>,
    pub ready: bool,
    pub write_protected: bool,
    pub read_faults: FaultsView<u32>,
    pub write_faults: FaultsView<u32>,
}

impl RamStorageView {
    /// What reading block `block_index` answers.
    pub open spec fn read_result(self, block_index: u32) -> Result<(), StorageError> {
        if !self.ready {
            Err(StorageError::NotReady)
        } else if block_index >= self.blocks.len() {
            Err(StorageError::MediumError)
        } else {
            match self.read_faults.met_by(block_index) {
                Some(error) => Err(error),
                None => Ok(()),
            }
        }
    }

    /// The storage once block `block_index` was asked for.
    pub open spec fn after_read(self, block_index: u32) -> RamStorageView {
        if !self.ready || block_index >= self.blocks.len() {
            self
        } else {
            RamStorageView { read_faults: self.read_faults.spent_by(block_index), ..self }
        }
    }

    /// What writing block `block_index` answers.
    pub open spec fn write_result(self, block_index: u32) -> Result<(), StorageError> {
        if !self.ready {
            Err(StorageError::NotReady)
        } else if self.write_protected {
            Err(StorageError::WriteProtect)
        } else if block_index >= self.blocks.len() {
            Err(StorageError::MediumError)
        } else {
            match self.write_faults.met_by(block_index) {
                Some(error) => Err(error),
                None => Ok(()),
            }
        }
    }

    /// The storage once `data` was to be written to block `block_index`.
    pub open spec fn after_write(self, block_index: u32, data: Seq<u8>) -> RamStorageView {
        if !self.ready || self.write_protected || block_index >= self.blocks.len() {
            self
        } else {
            RamStorageView {
                blocks: if self.write_faults.met_by(block_index) is Some {
                    self.blocks
                } else {
                    self.blocks.update(block_index as int, data)
                },
                write_faults: self.write_faults.spent_by(block_index),
                ..self
            }
        }
    }
}

/// A block device in memory.
pub struct RamStorage {
    blocks: Vec<[u8; BLOCK_SIZE]>,
    ready: bool,
    write_protected: bool,
    read_faults: BlockFaults,
    write_faults: BlockFaults,
    error_log: Ghost<Seq<StorageError>>,
}

impl View for RamStorage {
    type V = RamStorageView;

    closed spec fn view(&self) -> RamStorageView {
        RamStorageView {
            blocks: Seq::new(self.blocks@.len(), |i: int| self.blocks@[i]@),
            ready: self.ready,
            write_protected: self.write_protected,
            read_faults: self.read_faults@,
            write_faults: self.write_faults@,
        }
    }
}

impl RamStorage {
    /// A device of `block_count` zeroed blocks: ready, writable, and with nothing lined up.
    pub fn new(block_count: u32) -> (storage: Self)
        ensures
            storage.wf(),
            storage.healthy(),
            storage@.ready,
            !storage@.write_protected,
            storage@.blocks == Seq::new(
                block_count as nat,
                |i: int| Seq::new(BLOCK_SIZE as nat, |j: int| 0u8),
            ),
            storage.errors().len() == 0,
    {
        let mut blocks: Vec<[u8; BLOCK_SIZE]> = Vec::new();
        let zero = [0u8; BLOCK_SIZE];
        let mut i: u32 = 0;
        while i < block_count
            invariant
                i <= block_count,
                blocks@.len() == i,
                forall|j: int| 0 <= j < i ==> #[trigger] blocks@[j] == zero,
            decreases block_count - i,
        {
            blocks.push(zero);
            i = i + 1;
        }
        let storage = RamStorage {
            blocks,
            ready: true,
            write_protected: false,
            read_faults: BlockFaults::new(),
            write_faults: BlockFaults::new(),
            error_log: Ghost(Seq::empty()),
        };
        proof {
            let expected = Seq::new(
                block_count as nat,
                |i: int| Seq::new(BLOCK_SIZE as nat, |j: int| 0u8),
            );
            assert forall|i: int| 0 <= i < block_count implies #[trigger] storage@.blocks[i]
                == expected[i] by {
                assert(storage.blocks@[i] == zero);
                assert(zero@ =~= expected[i]);
            }
            assert(storage@.blocks =~= expected);
        }
        storage
    }

    pub fn set_ready(&mut self, ready: bool)
        ensures
            final(self)@ == (RamStorageView { ready, ..old(self)@ }),
            final(self).errors() == old(self).errors(),
    {
        self.ready = ready;
    }

    pub fn set_write_protected(&mut self, write_protected: bool)
        ensures
            final(self)@ == (RamStorageView { write_protected, ..old(self)@ }),
            final(self).errors() == old(self).errors(),
    {
        self.write_protected = write_protected;
    }

    pub fn set_block(&mut self, index: u32, data: [u8; BLOCK_SIZE])
        requires
            index < old(self)@.blocks.len(),
        ensures
            final(self)@ == (RamStorageView {
                blocks: old(self)@.blocks.update(index as int, data@),
                ..old(self)@
            }),
            final(self).errors() == old(self).errors(),
    {
        self.blocks.set(index as usize, data);
        assert(self@.blocks =~= old(self)@.blocks.update(index as int, data@));
    }

    pub fn block(&self, index: u32) -> (data: [u8; BLOCK_SIZE])
        requires
            index < self@.blocks.len(),
        ensures
            data@ == self@.blocks[index as int],
    {
        self.blocks[index as usize]
    }

    pub fn inject_next_read_error(&mut self, error: StorageError)
        ensures
            final(self)@ == (RamStorageView {
                read_faults: old(self)@.read_faults.with_next(error),
                ..old(self)@
            }),
            final(self).errors() == old(self).errors(),
    {
        self.read_faults.inject_next(error);
    }

    pub fn inject_next_write_error(&mut self, error: StorageError)
        ensures
            final(self)@ == (RamStorageView {
                write_faults: old(self)@.write_faults.with_next(error),
                ..old(self)@
            }),
            final(self).errors() == old(self).errors(),
    {
        self.write_faults.inject_next(error);
    }

    pub fn inject_read_error_at(&mut self, block_index: u32, error: StorageError)
        ensures
            final(self)@ == (RamStorageView {
                read_faults: old(self)@.read_faults.with_at(block_index, error),
                ..old(self)@
            }),
            final(self).errors() == old(self).errors(),
    {
        self.read_faults.inject_at(block_index, error);
    }

    pub fn inject_write_error_at(&mut self, block_index: u32, error: StorageError)
        ensures
            final(self)@ == (RamStorageView {
                write_faults: old(self)@.write_faults.with_at(block_index, error),
                ..old(self)@
            }),
            final(self).errors() == old(self).errors(),
    {
        self.write_faults.inject_at(block_index, error);
    }

    fn fail(&mut self, error: StorageError) -> (r: Result<(), StorageError>)
        ensures
            r == Err::<(), StorageError>(error),
            final(self)@ == old(self)@,
            final(self).errors() == old(self).errors().push(error),
    {
        self.error_log = Ghost(self.error_log@.push(error));
        Err(error)
    }
}

impl BlockStorage for RamStorage {
    open spec fn wf(&self) -> bool {
        self@.blocks.len() <= u32::MAX
    }

    open spec fn contents(&self) -> Seq<Seq<u8>> {
        self@.blocks
    }

    open spec fn ready(&self) -> bool {
        self@.ready
    }

    open spec fn write_protected(&self) -> bool {
        self@.write_protected
    }

    open spec fn unfinished(&self) -> Option<(int, Seq<u8>)> {
        None
    }

    open spec fn healthy(&self) -> bool {
        self@.read_faults.quiet() && self@.write_faults.quiet()
    }

    closed spec fn errors(&self) -> Seq<StorageError> {
        self.error_log@
    }

    fn block_count(&self) -> (n: u32) {
        self.blocks.len() as u32
    }

    fn is_ready(&self) -> (b: bool) {
        self.ready
    }

    fn is_write_protected(&self) -> (b: bool) {
        self.write_protected
    }

    fn read_block(&mut self, block_index: u32, out: &mut [u8; BLOCK_SIZE]) -> (r: Result<
        (),
        StorageError,
    >)
        ensures
            r == old(self)@.read_result(block_index),
            final(self)@ == old(self)@.after_read(block_index),
            r is Err ==> final(out)@ == old(out)@,
    {
        if !self.ready {
            return self.fail(StorageError::NotReady);
        }
        if block_index >= self.block_count() {
            return self.fail(StorageError::MediumError);
        }
        if let Some(error) = self.read_faults.consume(block_index) {
            return self.fail(error);
        }
        *out = self.blocks[block_index as usize];
        proof {
            old(self)@.read_faults.lemma_unmet_is_unspent(block_index);
        }
        Ok(())
    }

    fn write_block(&mut self, block_index: u32, data: &[u8; BLOCK_SIZE]) -> (r: Result<
        (),
        StorageError,
    >)
        ensures
            r == old(self)@.write_result(block_index),
            final(self)@ == old(self)@.after_write(block_index, data@),
    {
        if !self.ready {
            return self.fail(StorageError::NotReady);
        }
        if self.write_protected {
            return self.fail(StorageError::WriteProtect);
        }
        if block_index >= self.block_count() {
            return self.fail(StorageError::MediumError);
        }
        if let Some(error) = self.write_faults.consume(block_index) {
            return self.fail(error);
        }
        self.blocks.set(block_index as usize, *data);
        proof {
            old(self)@.write_faults.lemma_unmet_is_unspent(block_index);
            assert(self@.blocks =~= old(self)@.blocks.update(block_index as int, data@));
        }
        Ok(())
    }
}

} // verus!
