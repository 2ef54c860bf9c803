//! The game process's module list, with module names.
use crate::module::{
    find_outcome, record_in_bounds, record_name, record_name_bytes, ModuleError, ModuleRecord,
};
use vstd::prelude::*;
use vstd::utf8::*;

verus! {

/// A module of the game process: its base name, base address and size.
#[derive(Debug)]
pub struct Module {
    pub name: String,
    pub base: usize,
    pub size: usize,
}

/// A module as plain values: (name, base, size).
pub open spec fn module_model(m: Module) -> (Seq<char>, usize, usize) {
    (m.name@, m.base, m.size)
}

pub open spec fn modules_model(v: Seq<Module>) -> Seq<(Seq<char>, usize, usize)> {
    v.map_values(|m: Module| module_model(m))
}

/// The outcome of listing the modules of `records` in order: records whose
/// name query failed are left out; the first record whose name is not UTF-8,
/// or whose information query failed, ends the listing with that error.
/// `None` where a name length exceeds its buffer before the listing ends.
pub open spec fn list_outcome(records: Seq<ModuleRecord>) -> Option<
    Result<Seq<(Seq<char>, usize, usize)>, ModuleError>,
>
    decreases records.len(),
{
    if records.len() == 0 {
        Some(Ok(Seq::empty()))
    } else {
        let r = records[0];
        if r.name_len == 0 {
            list_outcome(records.drop_first())
        } else if !record_in_bounds(r) {
            None
        } else if !valid_utf8(record_name_bytes(r)) {
            Some(Err(ModuleError::NameNotUtf8))
        } else {
            match r.image_size {
                Err(code) => Some(Err(ModuleError::Os(code))),
                Ok(size) => match list_outcome(records.drop_first()) {
                    Some(Ok(rest)) => Some(
                        Ok(seq![(decode_utf8(record_name_bytes(r)), r.handle, size as usize)]
                            + rest),
                    ),
                    other => other,
                },
            }
        }
    }
}

/// `outcome` with `prefix` put before the modules it lists.
pub open spec fn listed_after(
    prefix: Seq<(Seq<char>, usize, usize)>,
    outcome: Option<Result<Seq<(Seq<char>, usize, usize)>, ModuleError>>,
) -> Option<Result<Seq<(Seq<char>, usize, usize)>, ModuleError>> {
    match outcome {
        Some(Ok(rest)) => Some(Ok(prefix + rest)),
        other => other,
    }
}

/// The base and size of the first listed module named `name`.
pub open spec fn first_named(ms: Seq<(Seq<char>, usize, usize)>, name: Seq<char>) -> Result<
    (usize, usize),
    ModuleError,
>
    decreases ms.len(),
{
    if ms.len() == 0 {
        Err(ModuleError::NotFound)
    } else if ms[0].0 == name {
        Ok((ms[0].1, ms[0].2))
    } else {
        first_named(ms.drop_first(), name)
    }
}

/// Law: where the module list can be taken, searching the same reports for a
/// name finds the first listed module with that name, and reports
/// `NotFound` exactly when no listed module has it.
pub proof fn lemma_find_is_first_listed(
    records: Seq<ModuleRecord>,
    ms: Seq<(Seq<char>, usize, usize)>,
    name: Seq<char>,
)
    requires
        list_outcome(records) == Some(Ok::<Seq<(Seq<char>, usize, usize)>, ModuleError>(ms)),
    ensures
        find_outcome(records, name) matches Some(r) && match r {
            Ok(m) => first_named(ms, name) == Ok::<(usize, usize), ModuleError>((m.base, m.size)),
            Err(e) => first_named(ms, name) == Err::<(usize, usize), ModuleError>(e),
        },
    decreases records.len(),
{
    if records.len() > 0 {
        let r = records[0];
        let rest = records.drop_first();
        if r.name_len == 0 {
            lemma_find_is_first_listed(rest, ms, name);
        } else {
            if let Some(Ok(tail)) = list_outcome(rest) {
                assert(ms.drop_first() =~= tail);
                if decode_utf8(record_name_bytes(r)) != name {
                    lemma_find_is_first_listed(rest, tail, name);
                }
            }
        }
    }
}

impl Module {
    /// The address `offset` bytes into the module.
    pub fn fix_offset(&self, offset: usize) -> (a: usize)
        requires
            self.base + offset <= usize::MAX,
        ensures
            a == self.base + offset,
    {
        self.base + offset
    }
}

/// Every module of `records` that has a name, in order, as [`list_outcome`]
/// describes the listing.
pub fn get_modules(records: &Vec<ModuleRecord>) -> (res: Result<Vec<Module>, ModuleError>)
    requires
        list_outcome(records@) is Some,
    ensures
        list_outcome(records@) == Some(
            match res {
                Ok(v) => Ok(modules_model(v@)),
                Err(e) => Err(e),
            },
        ),
{
    let mut valid_modules: Vec<Module> = Vec::new();
    let mut i: usize = 0;
    assert(records@.skip(0) =~= records@);
    assert(Seq::<(Seq<char>, usize, usize)>::empty() + modules_model(valid_modules@)
        =~= Seq::<(Seq<char>, usize, usize)>::empty());
    while i < records.len()
        invariant
            i <= records@.len(),
            list_outcome(records@) is Some,
            list_outcome(records@) == listed_after(
                modules_model(valid_modules@),
                list_outcome(records@.skip(i as int)),
            ),
        decreases records@.len() - i,
    {
        let ghost rest = records@.skip(i as int);
        let ghost before = modules_model(valid_modules@);
        assert(rest.drop_first() =~= records@.skip(i + 1));
        assert(rest[0] == records@[i as int]);
        let rec = &records[i];
        if rec.name_len != 0 {
            let name = match record_name(rec) {
                Ok(n) => n,
                Err(e) => {
                    return Err(e);
                },
            };
            match rec.image_size {
                Err(code) => {
                    return Err(ModuleError::Os(code));
                },
                Ok(size) => {
                    let ghost entry = (name@, rec.handle, size as usize);
                    valid_modules.push(Module { name, base: rec.handle, size: size as usize });
                    proof {
                        assert(modules_model(valid_modules@) =~= before.push(entry));
                        match list_outcome(records@.skip(i + 1)) {
                            Some(Ok(tail)) => {
                                assert(before + (seq![entry] + tail) =~= before.push(entry)
                                    + tail);
                            },
                            _ => {},
                        }
                    }
                },
            }
        }
        i = i + 1;
    }
    proof {
        assert(records@.skip(i as int) =~= Seq::<ModuleRecord>::empty());
        assert(modules_model(valid_modules@) + Seq::<(Seq<char>, usize, usize)>::empty()
            =~= modules_model(valid_modules@));
    }
    Ok(valid_modules)
}

} // verus!
