//! Finding the interpreter's symbols in its binary.
use crate::bytes::same_bytes;
use crate::errors::InitError;
use crate::maps::PythonBinary;
use object::{Object, ObjectSegment, ObjectSymbol};
use vstd::prelude::*;

verus! {

/// An error of the `object` crate.
#[verifier::external_type_specification]
#[verifier::external_body]
pub struct ExObjectError(object::Error);

/// Absolute runtime addresses of two symbols of CPython.
#[derive(Debug, Clone, Copy, PartialEq, Eq, Structural)]
pub struct ElfSymbols {
    pub py_runtime_addr: u64,
    pub py_version_addr: u64,
}

/// A dynamic symbol: its name, where that can be read as text, and its address in the file.
pub struct DynamicSymbol {
    pub name: Option<Vec<u8>>,
    pub address: u64,
}

impl View for DynamicSymbol {
    type V = (Option<Seq<u8>>, u64);

    open spec fn view(&self) -> (Option<Seq<u8>>, u64) {
        (
            match self.name {
                Some(name) => Some(name@),
                None => None,
            },
            self.address,
        )
    }
}

/// What an object file says of itself: the addresses that its loadable segments are linked at,
/// and its dynamic symbols, both in order.
pub struct ObjectImage {
    pub segment_addresses: Vec<u64>,
    pub dynamic_symbols: Vec<DynamicSymbol>,
}

/// The dynamic symbols by their views.
pub open spec fn symbol_views(symbols: Seq<DynamicSymbol>) -> Seq<(Option<Seq<u8>>, u64)> {
    Seq::new(symbols.len(), |i: int| symbols[i]@)
}

/// `data` starts like an ELF file.
pub open spec fn is_elf(data: Seq<u8>) -> bool {
    data.len() >= 4 && data[0] == 0x7f && data[1] == 0x45 && data[2] == 0x4c && data[3] == 0x46
}

/// `data` starts like a 64-bit ELF file whose header says that there are no program headers.
pub open spec fn is_elf64_without_segments(data: Seq<u8>) -> bool {
    &&& is_elf(data)
    &&& data.len() >= 40
    &&& data[4] == 2
    &&& forall|i: int| 32 <= i < 40 ==> data[i] == 0
}

/// Whether `object::File::parse` accepts `data`.
pub uninterp spec fn object_parses(data: Seq<u8>) -> bool;

/// What `segments` gives for the object file `data`: of each loadable segment its `address`.
pub uninterp spec fn object_segment_addresses(data: Seq<u8>) -> Seq<u64>;

/// What `dynamic_symbols` gives for the object file `data`: of each symbol its `name`, `None`
/// where that is an error, and its `address`.
pub uninterp spec fn object_dynamic_symbols(data: Seq<u8>) -> Seq<(Option<Seq<u8>>, u64)>;

/// Calls `object::File::parse` and, on the file that it gives, `segments`, with `address` of each
/// segment, and `dynamic_symbols`, with `name` and `address` of each symbol. Assumed of them: all
/// depend on the bytes alone; a file has at least the 16 bytes that tell its format; a 64-bit ELF
/// file without program headers has no segments; a file of another format than ELF has no
/// dynamic symbols. Which files parse and which segments and symbols they hold is left to the
/// crate.
#[verifier::external_body]
fn parse_object(data: &[u8]) -> (r: Result<ObjectImage, object::Error>)
    ensures
        r is Ok <==> object_parses(data@),
        r is Ok ==> data@.len() >= 16,
        r matches Ok(image) ==> {
            &&& image.segment_addresses@ == object_segment_addresses(data@)
            &&& symbol_views(image.dynamic_symbols@) == object_dynamic_symbols(data@)
            &&& is_elf64_without_segments(data@) ==> image.segment_addresses@.len() == 0
            &&& !is_elf(data@) ==> image.dynamic_symbols@.len() == 0
        },
{
    let file = object::File::parse(data)?;
    let segment_addresses = file.segments().map(|segment| segment.address()).collect();
    let mut dynamic_symbols = Vec::new();
    for symbol in file.dynamic_symbols() {
        let name = symbol.name().ok().map(|name| name.as_bytes().to_vec());
        dynamic_symbols.push(DynamicSymbol { name, address: symbol.address() });
    }
    Ok(ObjectImage { segment_addresses, dynamic_symbols })
}

/// The bytes of `_PyRuntime`.
pub open spec fn py_runtime_name() -> Seq<u8> {
    seq![0x5f, 0x50, 0x79, 0x52, 0x75, 0x6e, 0x74, 0x69, 0x6d, 0x65]
}

/// The bytes of `Py_Version`.
pub open spec fn py_version_name() -> Seq<u8> {
    seq![0x50, 0x79, 0x5f, 0x56, 0x65, 0x72, 0x73, 0x69, 0x6f, 0x6e]
}

/// The address of the last symbol of that name.
pub open spec fn last_address(symbols: Seq<(Option<Seq<u8>>, u64)>, name: Seq<u8>) -> Option<u64>
    decreases symbols.len(),
{
    if symbols.len() == 0 {
        None
    } else if symbols.last().0 == Some(name) {
        Some(symbols.last().1)
    } else {
        last_address(symbols.drop_last(), name)
    }
}

/// Both symbols of the interpreter are among `symbols`.
pub open spec fn both_named(symbols: Seq<(Option<Seq<u8>>, u64)>) -> bool {
    &&& last_address(symbols, py_runtime_name()) is Some
    &&& last_address(symbols, py_version_name()) is Some
}

/// The first `n` symbols are the fewest that hold both symbols of the interpreter.
pub open spec fn is_enough(symbols: Seq<(Option<Seq<u8>>, u64)>, n: int) -> bool {
    &&& 0 <= n <= symbols.len()
    &&& both_named(symbols.take(n))
    &&& forall|m: int| 0 <= m < n ==> !both_named(#[trigger] symbols.take(m))
}

/// The address that a file is linked at: that of its first loadable segment, or 0.
pub open spec fn file_base(segments: Seq<u64>) -> u64 {
    if segments.len() == 0 {
        0
    } else {
        segments[0]
    }
}

/// The runtime address of a symbol: its address in the file moved by the distance from the
/// file's base to where the file is mapped.
pub open spec fn loaded_address(address: u64, base: u64, mapped_base: u64) -> u64 {
    ((address + mapped_base - base) % 0x1_0000_0000_0000_0000) as u64
}

/// The addresses of the interpreter's symbols. The table is read up to where both names have
/// been seen; of a name that occurs more than once by then the last counts.
pub open spec fn picked_symbols(
    base: u64,
    symbols: Seq<(Option<Seq<u8>>, u64)>,
    mapped_base: u64,
) -> Result<ElfSymbols, InitError> {
    if exists|n: int| is_enough(symbols, n) {
        let read = symbols.take(choose|n: int| is_enough(symbols, n));
        Ok(
            ElfSymbols {
                py_runtime_addr: loaded_address(
                    last_address(read, py_runtime_name()).unwrap(),
                    base,
                    mapped_base,
                ),
                py_version_addr: loaded_address(
                    last_address(read, py_version_name()).unwrap(),
                    base,
                    mapped_base,
                ),
            },
        )
    } else {
        Err(InitError::SymbolNotFound)
    }
}

proof fn lemma_enough_is_unique(symbols: Seq<(Option<Seq<u8>>, u64)>, n: int)
    requires
        is_enough(symbols, n),
    ensures
        forall|k: int| is_enough(symbols, k) ==> k == n,
{
    assert forall|k: int| is_enough(symbols, k) implies k == n by {
        if k < n {
            assert(!both_named(symbols.take(k)));
        } else if n < k {
            assert(!both_named(symbols.take(n)));
        }
    }
}

fn has_name(symbol: &DynamicSymbol, name: &[u8]) -> (r: bool)
    ensures
        r <==> symbol@.0 == Some(name@),
{
    match &symbol.name {
        Some(n) => same_bytes(n.as_slice(), name),
        None => false,
    }
}

/// Picks the interpreter's symbols out of a parsed file that is mapped at `mapped_base`.
pub fn pick_symbols(image: &ObjectImage, mapped_base: u64) -> (r: Result<ElfSymbols, InitError>)
    ensures
        r == picked_symbols(
            file_base(image.segment_addresses@),
            symbol_views(image.dynamic_symbols@),
            mapped_base,
        ),
{
    let runtime_name: [u8; 10] = [0x5f, 0x50, 0x79, 0x52, 0x75, 0x6e, 0x74, 0x69, 0x6d, 0x65];
    let version_name: [u8; 10] = [0x50, 0x79, 0x5f, 0x56, 0x65, 0x72, 0x73, 0x69, 0x6f, 0x6e];
    assert(runtime_name@ =~= py_runtime_name());
    assert(version_name@ =~= py_version_name());
    let base: u64 = if image.segment_addresses.len() == 0 {
        0
    } else {
        image.segment_addresses[0]
    };
    let load_bias: u64 = mapped_base.wrapping_sub(base);
    let ghost symbols = symbol_views(image.dynamic_symbols@);
    let mut py_runtime: Option<u64> = None;
    let mut py_version: Option<u64> = None;
    let mut i: usize = 0;
    while i < image.dynamic_symbols.len()
        invariant
            0 <= i <= image.dynamic_symbols@.len(),
            symbols == symbol_views(image.dynamic_symbols@),
            runtime_name@ == py_runtime_name(),
            version_name@ == py_version_name(),
            py_runtime == last_address(symbols.take(i as int), py_runtime_name()),
            py_version == last_address(symbols.take(i as int), py_version_name()),
            forall|m: int| 0 <= m <= i ==> !both_named(#[trigger] symbols.take(m)),
            load_bias == mapped_base.wrapping_sub(base),
            base == file_base(image.segment_addresses@),
        decreases image.dynamic_symbols@.len() - i,
    {
        let symbol = &image.dynamic_symbols[i];
        proof {
            let next = symbols.take(i + 1);
            assert(next.drop_last() =~= symbols.take(i as int));
            assert(next.last() == symbol@);
            assert(py_runtime_name()[0] != py_version_name()[0]);
        }
        if has_name(symbol, runtime_name.as_slice()) {
            py_runtime = Some(symbol.address);
        } else if has_name(symbol, version_name.as_slice()) {
            py_version = Some(symbol.address);
        }
        i += 1;
        match (py_runtime, py_version) {
            (Some(runtime), Some(version)) => {
                proof {
                    assert(is_enough(symbols, i as int));
                    lemma_enough_is_unique(symbols, i as int);
                }
                return Ok(
                    ElfSymbols {
                        py_runtime_addr: runtime.wrapping_add(load_bias),
                        py_version_addr: version.wrapping_add(load_bias),
                    },
                );
            },
            _ => {},
        }
    }
    Err(InitError::SymbolNotFound)
}

/// Parses the dynamic symbols of a binary and gives the runtime addresses of `_PyRuntime` and
/// `Py_Version`. `mapped_base` is where the first mapping of the binary starts, and a symbol moves
/// with the first loadable segment: in a binary that is linked at 0, as position-independent ones
/// are, its runtime address is its address plus `mapped_base`.
pub fn resolve_elf_symbols_from_bytes(data: &[u8], mapped_base: u64) -> (r: Result<
    ElfSymbols,
    InitError,
>)
    ensures
        r == if object_parses(data@) {
            picked_symbols(
                file_base(object_segment_addresses(data@)),
                object_dynamic_symbols(data@),
                mapped_base,
            )
        } else {
            Err(InitError::ElfParse)
        },
        data@.len() < 16 ==> r == Err::<ElfSymbols, InitError>(InitError::ElfParse),
        is_elf64_without_segments(data@) && object_parses(data@) ==> r == picked_symbols(
            0,
            object_dynamic_symbols(data@),
            mapped_base,
        ),
        !is_elf(data@) ==> r is Err,
{
    match parse_object(data) {
        Ok(image) => pick_symbols(&image, mapped_base),
        Err(_) => Err(InitError::ElfParse),
    }
}

/// The runtime addresses of the interpreter's symbols, given what its file holds; `None` where
/// the file could not be opened or mapped.
pub fn resolve_elf_symbols(binary: &PythonBinary, data: Option<&[u8]>) -> (r: Result<
    ElfSymbols,
    InitError,
>)
    ensures
        r == match data {
            None => Err(InitError::Io),
            Some(data) => if object_parses(data@) {
                picked_symbols(
                    file_base(object_segment_addresses(data@)),
                    object_dynamic_symbols(data@),
                    binary.base,
                )
            } else {
                Err(InitError::ElfParse)
            },
        },
        data matches Some(data) ==> {
            &&& data@.len() < 16 ==> r == Err::<ElfSymbols, InitError>(InitError::ElfParse)
            &&& is_elf64_without_segments(data@) && object_parses(data@) ==> r == picked_symbols(
                0,
                object_dynamic_symbols(data@),
                binary.base,
            )
            &&& !is_elf(data@) ==> r is Err
        },
{
    match data {
        None => Err(InitError::Io),
        Some(data) => resolve_elf_symbols_from_bytes(data, binary.base),
    }
}

/// `name` is the name of one of the symbols.
pub open spec fn has_symbol(symbols: Seq<(Option<Seq<u8>>, u64)>, name: Seq<u8>) -> bool {
    exists|i: int| 0 <= i < symbols.len() && (#[trigger] symbols[i]).0 == Some(name)
}

proof fn lemma_last_address(symbols: Seq<(Option<Seq<u8>>, u64)>, name: Seq<u8>)
    ensures
        last_address(symbols, name) is Some <==> has_symbol(symbols, name),
        last_address(symbols, name) matches Some(address) ==> exists|i: int|
            0 <= i < symbols.len() && #[trigger] symbols[i] == (Some(name), address),
    decreases symbols.len(),
{
    if symbols.len() > 0 {
        let rest = symbols.drop_last();
        lemma_last_address(rest, name);
        if symbols.last().0 == Some(name) {
            assert(symbols[symbols.len() - 1] == (Some(name), symbols.last().1));
        } else {
            if has_symbol(rest, name) {
                let i = choose|i: int| 0 <= i < rest.len() && (#[trigger] rest[i]).0 == Some(name);
                assert(symbols[i].0 == Some(name));
            }
            if has_symbol(symbols, name) {
                let i = choose|i: int|
                    0 <= i < symbols.len() && (#[trigger] symbols[i]).0 == Some(name);
                assert(rest[i].0 == Some(name));
            }
            if last_address(rest, name) is Some {
                let address = last_address(rest, name).unwrap();
                let i = choose|i: int|
                    0 <= i < rest.len() && #[trigger] rest[i] == (Some(name), address);
                assert(symbols[i] == (Some(name), address));
            }
        }
    }
}

proof fn lemma_some_enough(symbols: Seq<(Option<Seq<u8>>, u64)>, m: int)
    requires
        0 <= m <= symbols.len(),
        both_named(symbols.take(m)),
    ensures
        exists|n: int| is_enough(symbols, n),
    decreases m,
{
    if exists|k: int| 0 <= k < m && both_named(#[trigger] symbols.take(k)) {
        let k = choose|k: int| 0 <= k < m && both_named(#[trigger] symbols.take(k));
        lemma_some_enough(symbols, k);
    } else {
        assert(is_enough(symbols, m));
    }
}

/// Addresses come out exactly where both names are in the table; otherwise the error is that a
/// symbol was not found.
pub proof fn law_found_where_both_named(
    base: u64,
    symbols: Seq<(Option<Seq<u8>>, u64)>,
    mapped_base: u64,
)
    ensures
        picked_symbols(base, symbols, mapped_base) is Ok <==> has_symbol(
            symbols,
            py_runtime_name(),
        ) && has_symbol(symbols, py_version_name()),
        picked_symbols(base, symbols, mapped_base) is Err ==> picked_symbols(
            base,
            symbols,
            mapped_base,
        ) == Err::<ElfSymbols, InitError>(InitError::SymbolNotFound),
{
    let all = symbols.len() as int;
    assert(symbols.take(all) =~= symbols);
    lemma_last_address(symbols, py_runtime_name());
    lemma_last_address(symbols, py_version_name());
    if both_named(symbols) {
        lemma_some_enough(symbols, all);
    }
    if exists|n: int| is_enough(symbols, n) {
        let n = choose|n: int| is_enough(symbols, n);
        let read = symbols.take(n);
        lemma_last_address(read, py_runtime_name());
        lemma_last_address(read, py_version_name());
        let i = choose|i: int|
            0 <= i < read.len() && (#[trigger] read[i]).0 == Some(py_runtime_name());
        let j = choose|j: int|
            0 <= j < read.len() && (#[trigger] read[j]).0 == Some(py_version_name());
        assert(symbols[i].0 == Some(py_runtime_name()));
        assert(symbols[j].0 == Some(py_version_name()));
    }
}

/// Each address is that of a symbol of its name. So where a name occurs once, it is the address
/// of that symbol.
pub proof fn law_addresses_of_the_named(
    base: u64,
    symbols: Seq<(Option<Seq<u8>>, u64)>,
    mapped_base: u64,
)
    requires
        picked_symbols(base, symbols, mapped_base) is Ok,
    ensures
        ({
            let picked = picked_symbols(base, symbols, mapped_base).unwrap();
            &&& exists|i: int|
                0 <= i < symbols.len() && (#[trigger] symbols[i]).0 == Some(py_runtime_name())
                    && picked.py_runtime_addr == loaded_address(symbols[i].1, base, mapped_base)
            &&& exists|i: int|
                0 <= i < symbols.len() && (#[trigger] symbols[i]).0 == Some(py_version_name())
                    && picked.py_version_addr == loaded_address(symbols[i].1, base, mapped_base)
        }),
{
    let n = choose|n: int| is_enough(symbols, n);
    let read = symbols.take(n);
    lemma_last_address(read, py_runtime_name());
    lemma_last_address(read, py_version_name());
    let runtime = last_address(read, py_runtime_name()).unwrap();
    let version = last_address(read, py_version_name()).unwrap();
    let i = choose|i: int|
        0 <= i < read.len() && #[trigger] read[i] == (Some(py_runtime_name()), runtime);
    let j = choose|j: int|
        0 <= j < read.len() && #[trigger] read[j] == (Some(py_version_name()), version);
    assert(symbols[i] == read[i]);
    assert(symbols[j] == read[j]);
}

/// What stands in the table behind the place where both names have been seen is of no account.
pub proof fn law_later_symbols_are_not_read(
    base: u64,
    symbols: Seq<(Option<Seq<u8>>, u64)>,
    later: Seq<(Option<Seq<u8>>, u64)>,
    mapped_base: u64,
)
    requires
        picked_symbols(base, symbols, mapped_base) is Ok,
    ensures
        picked_symbols(base, symbols + later, mapped_base) == picked_symbols(
            base,
            symbols,
            mapped_base,
        ),
{
    let n = choose|n: int| is_enough(symbols, n);
    let all = symbols + later;
    assert forall|m: int| 0 <= m <= symbols.len() implies #[trigger] all.take(m) == symbols.take(
        m,
    ) by {
        assert(all.take(m) =~= symbols.take(m));
    }
    assert(is_enough(all, n));
    lemma_enough_is_unique(all, n);
}

/// A binary that is mapped higher has its symbols higher by the same distance.
pub proof fn law_addresses_follow_the_mapping(
    base: u64,
    symbols: Seq<(Option<Seq<u8>>, u64)>,
    mapped_base: u64,
    distance: u64,
)
    requires
        picked_symbols(base, symbols, mapped_base) is Ok,
    ensures
        ({
            let low = picked_symbols(base, symbols, mapped_base).unwrap();
            picked_symbols(base, symbols, moved(mapped_base, distance)) == Ok::<
                ElfSymbols,
                InitError,
            >(
                ElfSymbols {
                    py_runtime_addr: moved(low.py_runtime_addr, distance),
                    py_version_addr: moved(low.py_version_addr, distance),
                },
            )
        }),
{
    let read = symbols.take(choose|n: int| is_enough(symbols, n));
    let runtime = last_address(read, py_runtime_name()).unwrap();
    let version = last_address(read, py_version_name()).unwrap();
    lemma_loaded_moves(runtime, base, mapped_base, distance);
    lemma_loaded_moves(version, base, mapped_base, distance);
}

/// The address `distance` above `address`, as addresses wrap around.
pub open spec fn moved(address: u64, distance: u64) -> u64 {
    ((address + distance) % 0x1_0000_0000_0000_0000) as u64
}

proof fn lemma_loaded_moves(address: u64, base: u64, mapped_base: u64, distance: u64)
    ensures
        loaded_address(address, base, moved(mapped_base, distance)) == moved(
            loaded_address(address, base, mapped_base),
            distance,
        ),
{
}

/// In a file that is linked at 0 a symbol that does not wrap around is where the file is mapped
/// plus the symbol's address. In a file that is mapped where it is linked, as one with fixed
/// addresses is, it is at its own address. What is at the file's base is where it is mapped.
pub proof fn law_loaded_address(address: u64, base: u64, mapped_base: u64)
    ensures
        address + mapped_base <= u64::MAX ==> loaded_address(address, 0, mapped_base) == address
            + mapped_base,
        loaded_address(address, base, base) == address,
        loaded_address(base, base, mapped_base) == mapped_base,
{
}

/// The names that are looked for are `_PyRuntime` and `Py_Version`.
pub proof fn law_symbol_names()
    ensures
        py_runtime_name().len() == "_PyRuntime"@.len(),
        forall|i: int|
            0 <= i < py_runtime_name().len() ==> #[trigger] py_runtime_name()[i]
                == "_PyRuntime"@[i] as u8,
        py_version_name().len() == "Py_Version"@.len(),
        forall|i: int|
            0 <= i < py_version_name().len() ==> #[trigger] py_version_name()[i]
                == "Py_Version"@[i] as u8,
{
    reveal_strlit("_PyRuntime");
    reveal_strlit("Py_Version");
}

/// The symbols of a table stand for their whole names and their whole addresses, in order.
pub proof fn law_symbols_are_told(symbols: Seq<DynamicSymbol>, i: int)
    requires
        0 <= i < symbols.len(),
    ensures
        symbol_views(symbols).len() == symbols.len(),
        symbol_views(symbols)[i].1 == symbols[i].address,
        symbols[i].name matches Some(name) ==> symbol_views(symbols)[i].0 == Some(name@),
        symbols[i].name is None ==> symbol_views(symbols)[i].0 is None,
{
}

/// A file is linked at the address of its first loadable segment, however many follow; without
/// segments, at 0.
pub proof fn law_linked_at_the_first_segment(first: u64, others: Seq<u64>)
    ensures
        file_base(seq![first] + others) == first,
        file_base(Seq::<u64>::empty()) == 0,
{
}

/// `r` is `address` moved by the distance from `base` to `mapped_base`, up to a multiple of 2 to
/// the 64th.
pub open spec fn is_moved_from(r: u64, address: u64, base: u64, mapped_base: u64) -> bool {
    (r + base - address - mapped_base) % 0x1_0000_0000_0000_0000 == 0
}

proof fn lemma_loaded_is_moved(address: u64, base: u64, mapped_base: u64)
    ensures
        is_moved_from(loaded_address(address, base, mapped_base), address, base, mapped_base),
{
}

proof fn lemma_last_is(symbols: Seq<(Option<Seq<u8>>, u64)>, name: Seq<u8>, i: int)
    requires
        0 <= i < symbols.len(),
        symbols[i].0 == Some(name),
        forall|k: int| i < k < symbols.len() ==> (#[trigger] symbols[k]).0 != Some(name),
    ensures
        last_address(symbols, name) == Some(symbols[i].1),
    decreases symbols.len(),
{
    if i < symbols.len() - 1 {
        let rest = symbols.drop_last();
        assert forall|k: int| i < k < rest.len() implies (#[trigger] rest[k]).0 != Some(name) by {
            assert(rest[k] == symbols[k]);
        }
        assert(symbols[symbols.len() - 1].0 != Some(name));
        lemma_last_is(rest, name, i);
    }
}

proof fn lemma_not_yet(symbols: Seq<(Option<Seq<u8>>, u64)>, name: Seq<u8>, n: int)
    requires
        0 <= n <= symbols.len(),
        forall|k: int| 0 <= k < n ==> (#[trigger] symbols[k]).0 != Some(name),
    ensures
        forall|m: int| 0 <= m <= n ==> last_address(#[trigger] symbols.take(m), name) is None,
{
    assert forall|m: int| 0 <= m <= n implies last_address(
        #[trigger] symbols.take(m),
        name,
    ) is None by {
        let read = symbols.take(m);
        lemma_last_address(read, name);
        if has_symbol(read, name) {
            let k = choose|k: int| 0 <= k < read.len() && (#[trigger] read[k]).0 == Some(name);
            assert(symbols[k].0 == Some(name));
        }
    }
}

/// Which symbols count: of the two names, the one that turns up last counts where it first does,
/// and the other where it last stood before that. Both are moved with the file's first segment,
/// whatever the other segments are.
pub proof fn law_which_symbols_count(
    first: u64,
    others: Seq<u64>,
    symbols: Seq<(Option<Seq<u8>>, u64)>,
    mapped_base: u64,
    i: int,
    j: int,
)
    requires
        0 <= i < symbols.len(),
        0 <= j < symbols.len(),
        symbols[i].0 == Some(py_runtime_name()),
        symbols[j].0 == Some(py_version_name()),
        forall|k: int| i < k < j ==> (#[trigger] symbols[k]).0 != Some(py_runtime_name()),
        forall|k: int| j < k < i ==> (#[trigger] symbols[k]).0 != Some(py_version_name()),
        i < j ==> forall|k: int|
            0 <= k < j ==> (#[trigger] symbols[k]).0 != Some(py_version_name()),
        j < i ==> forall|k: int|
            0 <= k < i ==> (#[trigger] symbols[k]).0 != Some(py_runtime_name()),
    ensures
        picked_symbols(file_base(seq![first] + others), symbols, mapped_base) matches Ok(s) && {
            &&& is_moved_from(s.py_runtime_addr, symbols[i].1, first, mapped_base)
            &&& is_moved_from(s.py_version_addr, symbols[j].1, first, mapped_base)
            &&& symbols[i].1 == first ==> s.py_runtime_addr == mapped_base
            &&& symbols[j].1 == first ==> s.py_version_addr == mapped_base
        },
        picked_symbols(file_base(Seq::empty()), symbols, mapped_base) matches Ok(s) && {
            &&& is_moved_from(s.py_runtime_addr, symbols[i].1, 0, mapped_base)
            &&& is_moved_from(s.py_version_addr, symbols[j].1, 0, mapped_base)
        },
{
    assert(py_runtime_name()[0] != py_version_name()[0]);
    assert(i != j);
    let late = if i < j {
        j
    } else {
        i
    };
    let read = symbols.take(late + 1);
    if i < j {
        lemma_not_yet(symbols, py_version_name(), j);
    } else {
        lemma_not_yet(symbols, py_runtime_name(), i);
    }
    assert forall|k: int| i < k < read.len() implies (#[trigger] read[k]).0 != Some(
        py_runtime_name(),
    ) by {
        assert(read[k] == symbols[k]);
    }
    assert forall|k: int| j < k < read.len() implies (#[trigger] read[k]).0 != Some(
        py_version_name(),
    ) by {
        assert(read[k] == symbols[k]);
    }
    assert(read[i] == symbols[i] && read[j] == symbols[j]);
    lemma_last_is(read, py_runtime_name(), i);
    lemma_last_is(read, py_version_name(), j);
    assert(is_enough(symbols, late + 1));
    lemma_enough_is_unique(symbols, late + 1);
    lemma_loaded_is_moved(symbols[i].1, first, mapped_base);
    lemma_loaded_is_moved(symbols[j].1, first, mapped_base);
    lemma_loaded_is_moved(symbols[i].1, 0, mapped_base);
    lemma_loaded_is_moved(symbols[j].1, 0, mapped_base);
    law_loaded_address(first, first, mapped_base);
    law_linked_at_the_first_segment(first, others);
}

} // verus!
