//! Modules loaded in a process, and the search for one of them by name.
//!
//! The operating system reports, for each module handle of a process, the
//! module's base name (copied into a buffer of C characters, with its length)
//! and its image size. Those reports arrive here as [`ModuleRecord`]s, in the
//! order in which the system listed the handles.
use crate::utils::{decode_text, realign_unchecked, unsigned_bytes};
use vstd::prelude::*;
use vstd::slice::slice_subrange;
use vstd::utf8::*;

verus! {

/// What the system reported about one module handle.
pub struct ModuleRecord {
    /// The handle, which is the module's base address.
    pub handle: usize,
    /// The buffer that received the module's base name.
    pub name_buf: Vec<i8>,
    /// The length that the name query returned; 0 means that it failed.
    pub name_len: u32,
    /// The image size from the module information query, or the system's
    /// error code where that query failed.
    pub image_size: Result<u32, i32>,
}

/// Why a module search failed.
#[derive(Clone, Copy, Debug, PartialEq, Eq, Structural)]
pub enum ModuleError {
    /// A system call failed with this error code.
    Os(i32),
    /// A module's base name is not UTF-8.
    NameNotUtf8,
    /// No module has the name looked for.
    NotFound,
}

/// A module mapped in a process: where it starts and how large it is.
#[derive(Debug)]
pub struct Module {
    pub base: usize,
    pub size: usize,
}

/// The bytes of a record's name, as the name query returned them.
pub open spec fn record_name_bytes(r: ModuleRecord) -> Seq<u8> {
    unsigned_bytes(r.name_buf@).take(r.name_len as int)
}

/// Whether a record's name length fits its buffer.
pub open spec fn record_in_bounds(r: ModuleRecord) -> bool {
    r.name_len <= r.name_buf@.len()
}

/// The outcome of searching `records` in order for the module named `name`:
/// records whose name query failed are passed over; the first record whose
/// name is not UTF-8, or whose information query failed, ends the search with
/// that error. `None` where a name length exceeds its buffer before the search
/// ends.
pub open spec fn find_outcome(records: Seq<ModuleRecord>, name: Seq<char>) -> Option<
    Result<Module, ModuleError>,
>
    decreases records.len(),
{
    if records.len() == 0 {
        Some(Err(ModuleError::NotFound))
    } else {
        let r = records[0];
        if r.name_len == 0 {
            find_outcome(records.drop_first(), name)
        } else if !record_in_bounds(r) {
            None
        } else if !valid_utf8(record_name_bytes(r)) {
            Some(Err(ModuleError::NameNotUtf8))
        } else {
            match r.image_size {
                Err(code) => Some(Err(ModuleError::Os(code))),
                Ok(size) => if decode_utf8(record_name_bytes(r)) == name {
                    Some(Ok(Module { base: r.handle, size: size as usize }))
                } else {
                    find_outcome(records.drop_first(), name)
                },
            }
        }
    }
}

/// The name of a record whose name query succeeded and fits its buffer, or
/// the error that its name gives.
pub fn record_name(r: &ModuleRecord) -> (res: Result<String, ModuleError>)
    requires
        r.name_len > 0,
        record_in_bounds(*r),
    ensures
        match res {
            Ok(s) => valid_utf8(record_name_bytes(*r)) && s@ == decode_utf8(record_name_bytes(*r)),
            Err(e) => !valid_utf8(record_name_bytes(*r)) && e == ModuleError::NameNotUtf8,
        },
{
    let bytes = realign_unchecked(r.name_buf.as_slice());
    let name_bytes = slice_subrange(bytes.as_slice(), 0, r.name_len as usize);
    assert(name_bytes@ =~= record_name_bytes(*r));
    match decode_text(name_bytes) {
        Some(s) => Ok(s),
        None => Err(ModuleError::NameNotUtf8),
    }
}

impl Module {
    /// The address `offset` bytes into the module.
    pub fn fix_offset(&self, offset: usize) -> (a: usize)
        requires
            self.base + offset <= usize::MAX,
        ensures
            a == self.base + offset,
    {
        self.base + offset
    }

    /// The first module among `records` whose base name is `dll_name`, as
    /// [`find_outcome`] describes the search.
    pub fn find_in_process(records: &Vec<ModuleRecord>, dll_name: &str) -> (res: Result<
        Module,
        ModuleError,
    >)
        requires
            find_outcome(records@, dll_name@) is Some,
        ensures
            Some(res) == find_outcome(records@, dll_name@),
    {
        let target = String::from_str(dll_name);
        let mut i: usize = 0;
        assert(records@.skip(0) =~= records@);
        while i < records.len()
            invariant
                i <= records@.len(),
                target@ == dll_name@,
                find_outcome(records@.skip(i as int), dll_name@) == find_outcome(
                    records@,
                    dll_name@,
                ),
                find_outcome(records@, dll_name@) is Some,
            decreases records@.len() - i,
        {
            let ghost rest = records@.skip(i as int);
            assert(rest.drop_first() =~= records@.skip(i + 1));
            assert(rest[0] == records@[i as int]);
            let rec = &records[i];
            if rec.name_len != 0 {
                let name = match record_name(rec) {
                    Ok(n) => n,
                    Err(e) => {
                        return Err(e);
                    },
                };
                match rec.image_size {
                    Err(code) => {
                        return Err(ModuleError::Os(code));
                    },
                    Ok(size) => {
                        if name == target {
                            return Ok(Module { base: rec.handle, size: size as usize });
                        }
                    },
                }
            }
            i = i + 1;
        }
        Err(ModuleError::NotFound)
    }
}

/// How many handles the first listing of a process's modules announced, and
/// the byte count to ask for in the second listing.
pub fn module_slots(size_needed: u32, handle_size: u32) -> (r: (u32, u32))
    requires
        handle_size > 0,
    ensures
        r.0 == size_needed / handle_size,
        r.1 == r.0 * handle_size,
        r.1 <= size_needed,
{
    let count = size_needed / handle_size;
    assert(count * handle_size <= size_needed) by (nonlinear_arith)
        requires
            count == size_needed / handle_size,
            handle_size > 0,
    ;
    (count, count * handle_size)
}

} // verus!
