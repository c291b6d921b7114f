//! What an executable needs at run time: the shared libraries it names and
//! the directories in which its run path says to look for them.
//!
//! Names and paths are handled as bytes, as they stand in the ELF image.

use crate::bytes::{starts_with, to_vec};
use vstd::prelude::*;
use vstd::string::*;

verus! {

/// The dynamic section of an ELF image, as far as the library reads it.
pub struct ElfDynamic {
    /// The names under DT_NEEDED, in order.
    pub libraries: Vec<Vec<u8>>,
    /// The strings under DT_RUNPATH, in order.
    pub runpaths: Vec<Vec<u8>>,
    /// The strings under DT_RPATH, in order.
    pub rpaths: Vec<Vec<u8>>,
}

/// What an `ElfDynamic` holds.
pub struct ElfDynamicView {
    pub libraries: Seq<Seq<u8>>,
    pub runpaths: Seq<Seq<u8>>,
    pub rpaths: Seq<Seq<u8>>,
}

/// The byte strings of a list, in order.
pub open spec fn names_view(names: Seq<Vec<u8>>) -> Seq<Seq<u8>> {
    Seq::new(names.len(), |i: int| names[i]@)
}

impl View for ElfDynamic {
    type V = ElfDynamicView;

    open spec fn view(&self) -> ElfDynamicView {
        ElfDynamicView {
            libraries: names_view(self.libraries@),
            runpaths: names_view(self.runpaths@),
            rpaths: names_view(self.rpaths@),
        }
    }
}

/// The view of what parsing gave.
pub open spec fn dynamic_view(d: Option<ElfDynamic>) -> Option<ElfDynamicView> {
    match d {
        Some(d) => Some(d@),
        None => None,
    }
}

/// What goblin reads from an ELF image: the needed libraries, run paths and
/// rpaths; `None` for bytes that it does not accept as ELF.
pub uninterp spec fn elf_dynamic(image: Seq<u8>) -> Option<ElfDynamicView>;

/// `goblin::elf::Elf::parse`, then the fields `libraries`, `runpaths` and
/// `rpaths` of the result as bytes. The contract only names the result: it
/// is a function of the image's bytes.
#[verifier::external_body]
fn parse_elf(image: &[u8]) -> (out: Option<ElfDynamic>)
    ensures
        dynamic_view(out) == elf_dynamic(image@),
{
    match goblin::elf::Elf::parse(image) {
        Ok(elf) => Some(
            ElfDynamic {
                libraries: elf.libraries.iter().map(|s| s.as_bytes().to_vec()).collect(),
                runpaths: elf.runpaths.iter().map(|s| s.as_bytes().to_vec()).collect(),
                rpaths: elf.rpaths.iter().map(|s| s.as_bytes().to_vec()).collect(),
            },
        ),
        Err(_) => None,
    }
}

// ---------------------------------------------------------------------------
// Search paths
// ---------------------------------------------------------------------------

/// The colon that separates the directories of a run path.
pub const COLON: u8 = 0x3a;

/// The slash that separates the components of a path.
pub const SLASH: u8 = 0x2f;

/// The pieces of `s` between colons from position `i` on, where the piece
/// at hand began at `start`. Empty pieces are dropped.
pub open spec fn pieces_from(s: Seq<u8>, start: int, i: int) -> Seq<Seq<u8>>
    decreases s.len() - i,
{
    if i >= s.len() {
        if start < s.len() {
            seq![s.subrange(start, s.len() as int)]
        } else {
            Seq::empty()
        }
    } else if s[i] == COLON {
        if start < i {
            seq![s.subrange(start, i)] + pieces_from(s, i + 1, i + 1)
        } else {
            pieces_from(s, i + 1, i + 1)
        }
    } else {
        pieces_from(s, start, i + 1)
    }
}

/// A run path cut at its colons, without the empty pieces.
pub open spec fn split_colon(s: Seq<u8>) -> Seq<Seq<u8>> {
    pieces_from(s, 0, 0)
}

/// The pieces of all entries, entry after entry.
pub open spec fn split_all(entries: Seq<Seq<u8>>) -> Seq<Seq<u8>>
    decreases entries.len(),
{
    if entries.len() == 0 {
        Seq::empty()
    } else {
        split_all(entries.drop_last()) + split_colon(entries.last())
    }
}

/// Where to look for libraries: the run path if the image has one, else
/// the rpath, else nowhere.
pub open spec fn spec_search_paths(d: ElfDynamicView) -> Seq<Seq<u8>> {
    if d.runpaths.len() > 0 {
        split_all(d.runpaths)
    } else {
        split_all(d.rpaths)
    }
}

/// A byte string that can be a directory of a run path: not empty, and
/// without a colon.
pub open spec fn is_piece(p: Seq<u8>) -> bool {
    p.len() > 0 && forall|j: int| 0 <= j < p.len() ==> p[j] != COLON
}

/// Every piece of a split is non-empty and holds no colon.
pub proof fn lemma_pieces_are_directories(s: Seq<u8>, start: int, i: int)
    requires
        0 <= start <= i <= s.len(),
        forall|j: int| start <= j < i ==> s[j] != COLON,
    ensures
        forall|k: int|
            0 <= k < pieces_from(s, start, i).len() ==> is_piece(
                #[trigger] pieces_from(s, start, i)[k],
            ),
    decreases s.len() - i,
{
    let all = pieces_from(s, start, i);
    if i >= s.len() {
        if start < s.len() {
            let p = s.subrange(start, s.len() as int);
            assert forall|j: int| 0 <= j < p.len() implies p[j] != COLON by {
                assert(p[j] == s[start + j]);
            }
            assert(all[0] == p);
            assert(is_piece(p));
        }
    } else if s[i] == COLON {
        lemma_pieces_are_directories(s, i + 1, i + 1);
        let rest = pieces_from(s, i + 1, i + 1);
        if start < i {
            let p = s.subrange(start, i);
            assert forall|j: int| 0 <= j < p.len() implies p[j] != COLON by {
                assert(p[j] == s[start + j]);
            }
            assert(is_piece(p));
            assert(all == seq![p] + rest);
            assert forall|k: int| 0 <= k < all.len() implies is_piece(#[trigger] all[k]) by {
                if k == 0 {
                    assert(all[0] == p);
                } else {
                    assert(all[k] == rest[k - 1]);
                }
            }
        } else {
            assert(all == rest);
        }
    } else {
        lemma_pieces_are_directories(s, start, i + 1);
        assert(all == pieces_from(s, start, i + 1));
    }
}

/// Appends the pieces of one entry to `out`.
fn split_into(out: &mut Vec<Vec<u8>>, entry: &[u8])
    ensures
        names_view(final(out)@) == names_view(old(out)@) + split_colon(entry@),
{
    let ghost before = names_view(out@);
    let n: usize = entry.len();
    let mut start: usize = 0;
    let mut i: usize = 0;
    assert(names_view(out@) + pieces_from(entry@, 0, 0) =~= before + split_colon(entry@));
    while i < n
        invariant
            start <= i <= n,
            n == entry@.len(),
            names_view(out@) + pieces_from(entry@, start as int, i as int) == before
                + split_colon(entry@),
        decreases n - i,
    {
        if entry[i] == COLON {
            if start < i {
                let ghost prev = names_view(out@);
                let piece = to_vec(vstd::slice::slice_subrange(entry, start, i));
                out.push(piece);
                assert(names_view(out@) =~= prev + seq![entry@.subrange(start as int, i as int)]);
                assert(names_view(out@) + pieces_from(entry@, i + 1, i + 1) =~= prev
                    + pieces_from(entry@, start as int, i as int));
            }
            start = i + 1;
        }
        i = i + 1;
    }
    if start < n {
        let ghost prev = names_view(out@);
        let piece = to_vec(vstd::slice::slice_subrange(entry, start, n));
        out.push(piece);
        assert(names_view(out@) =~= prev + seq![entry@.subrange(start as int, n as int)]);
    } else {
        assert(names_view(out@) + Seq::<Seq<u8>>::empty() =~= names_view(out@));
    }
}

/// The pieces of all entries.
fn split_entries(entries: &Vec<Vec<u8>>) -> (out: Vec<Vec<u8>>)
    ensures
        names_view(out@) == split_all(names_view(entries@)),
{
    let mut out: Vec<Vec<u8>> = Vec::new();
    let ghost all = names_view(entries@);
    let mut k: usize = 0;
    assert(all.subrange(0, 0) =~= Seq::<Seq<u8>>::empty());
    assert(names_view(out@) =~= Seq::<Seq<u8>>::empty());
    while k < entries.len()
        invariant
            k <= entries.len(),
            all == names_view(entries@),
            names_view(out@) == split_all(all.subrange(0, k as int)),
        decreases entries.len() - k,
    {
        split_into(&mut out, entries[k].as_slice());
        proof {
            let upto = all.subrange(0, k + 1);
            assert(upto.drop_last() =~= all.subrange(0, k as int));
            assert(upto.last() == entries@[k as int]@);
        }
        k = k + 1;
    }
    assert(all.subrange(0, entries.len() as int) =~= all);
    out
}

/// Where to look for the libraries of an image: the directories of its run
/// path, or of its rpath if it has no run path.
pub fn search_paths(d: &ElfDynamic) -> (out: Vec<Vec<u8>>)
    ensures
        names_view(out@) == spec_search_paths(d@),
{
    if d.runpaths.len() > 0 {
        split_entries(&d.runpaths)
    } else {
        split_entries(&d.rpaths)
    }
}

/// Reads an ELF image: the libraries it needs and where to look for them.
/// Bytes that are no ELF image give two empty lists.
pub fn parse_elf_libraries(elf_data: &[u8]) -> (r: (Vec<Vec<u8>>, Vec<Vec<u8>>))
    ensures
        match elf_dynamic(elf_data@) {
            Some(d) => names_view(r.0@) == d.libraries && names_view(r.1@) == spec_search_paths(
                d,
            ),
            None => r.0@.len() == 0 && r.1@.len() == 0,
        },
{
    match parse_elf(elf_data) {
        Some(d) => {
            let paths = search_paths(&d);
            (d.libraries, paths)
        },
        None => (Vec::new(), Vec::new()),
    }
}

// ---------------------------------------------------------------------------
// System libraries
// ---------------------------------------------------------------------------

/// Whether a name opens with one of the prefixes of the C runtime: these
/// libraries are on every Runner.
pub open spec fn runtime_name(name: Seq<u8>) -> bool {
    ||| "libc.so".spec_bytes().is_prefix_of(name)
    ||| "libm.so".spec_bytes().is_prefix_of(name)
    ||| "libpthread.so".spec_bytes().is_prefix_of(name)
    ||| "libdl.so".spec_bytes().is_prefix_of(name)
    ||| "librt.so".spec_bytes().is_prefix_of(name)
    ||| "libgcc".spec_bytes().is_prefix_of(name)
    ||| "libstdc++".spec_bytes().is_prefix_of(name)
    ||| "ld-linux".spec_bytes().is_prefix_of(name)
}

/// Whether a name opens with one of the prefixes of the libraries that are
/// never sent: the C runtime and the graphics and input libraries of the
/// system.
pub open spec fn system_name(name: Seq<u8>) -> bool {
    ||| runtime_name(name)
    ||| "libdrm.so".spec_bytes().is_prefix_of(name)
    ||| "libevdev.so".spec_bytes().is_prefix_of(name)
}

/// Whether a library belongs to the C runtime.
pub fn is_runtime_name(name: &[u8]) -> (r: bool)
    ensures
        r == runtime_name(name@),
{
    starts_with(name, "libc.so".as_bytes()) || starts_with(name, "libm.so".as_bytes())
        || starts_with(name, "libpthread.so".as_bytes()) || starts_with(
        name,
        "libdl.so".as_bytes(),
    ) || starts_with(name, "librt.so".as_bytes()) || starts_with(name, "libgcc".as_bytes())
        || starts_with(name, "libstdc++".as_bytes()) || starts_with(name, "ld-linux".as_bytes())
}

/// Whether a library is one that is never sent, by its name as bytes.
pub fn is_system_name(name: &[u8]) -> (r: bool)
    ensures
        r == system_name(name@),
{
    is_runtime_name(name) || starts_with(name, "libdrm.so".as_bytes()) || starts_with(
        name,
        "libevdev.so".as_bytes(),
    )
}

/// Whether a library is one that is never sent.
pub fn is_system_library(name: &str) -> (r: bool)
    ensures
        r == system_name(name.spec_bytes()),
{
    is_system_name(name.as_bytes())
}

// ---------------------------------------------------------------------------
// Candidates
// ---------------------------------------------------------------------------

/// A directory and a name put together as paths are: an absolute name
/// stands alone, and a slash goes between directory and name unless the
/// directory is empty or ends with one.
pub open spec fn spec_join(dir: Seq<u8>, name: Seq<u8>) -> Seq<u8> {
    if name.len() > 0 && name[0] == SLASH {
        name
    } else if dir.len() == 0 {
        name
    } else if dir.last() == SLASH {
        dir + name
    } else {
        dir + seq![SLASH] + name
    }
}

/// Puts a directory and a name together as paths are.
pub fn join_path(dir: &[u8], name: &[u8]) -> (r: Vec<u8>)
    ensures
        r@ == spec_join(dir@, name@),
{
    if name.len() > 0 && name[0] == SLASH {
        return to_vec(name);
    }
    if dir.len() == 0 {
        return to_vec(name);
    }
    let mut r = to_vec(dir);
    if dir[dir.len() - 1] != SLASH {
        r.push(SLASH);
    }
    r.extend_from_slice(name);
    assert(r@ =~= spec_join(dir@, name@));
    r
}

/// A library and the places where it may be, in the order of the search
/// paths.
pub struct LibraryCandidates {
    pub name: Vec<u8>,
    pub paths: Vec<Vec<u8>>,
}

/// What a `LibraryCandidates` holds.
pub struct LibraryCandidatesView {
    pub name: Seq<u8>,
    pub paths: Seq<Seq<u8>>,
}

impl View for LibraryCandidates {
    type V = LibraryCandidatesView;

    open spec fn view(&self) -> LibraryCandidatesView {
        LibraryCandidatesView { name: self.name@, paths: names_view(self.paths@) }
    }
}

/// The views of a list of candidates, in order.
pub open spec fn candidates_view(list: Seq<LibraryCandidates>) -> Seq<LibraryCandidatesView> {
    Seq::new(list.len(), |i: int| list[i]@)
}

/// The places where a library may be: the name joined to every search path.
pub open spec fn places(name: Seq<u8>, dirs: Seq<Seq<u8>>) -> Seq<Seq<u8>> {
    Seq::new(dirs.len(), |i: int| spec_join(dirs[i], name))
}

/// The candidates for the libraries that are not system libraries, in the
/// order of the names.
pub open spec fn spec_candidates(names: Seq<Seq<u8>>, dirs: Seq<Seq<u8>>) -> Seq<
    LibraryCandidatesView,
>
    decreases names.len(),
{
    if names.len() == 0 {
        Seq::empty()
    } else {
        let front = spec_candidates(names.drop_last(), dirs);
        if system_name(names.last()) {
            front
        } else {
            front.push(LibraryCandidatesView { name: names.last(), paths: places(names.last(), dirs) })
        }
    }
}

fn places_of(name: &[u8], dirs: &Vec<Vec<u8>>) -> (out: Vec<Vec<u8>>)
    ensures
        names_view(out@) == places(name@, names_view(dirs@)),
{
    let mut out: Vec<Vec<u8>> = Vec::new();
    let mut k: usize = 0;
    while k < dirs.len()
        invariant
            k <= dirs.len(),
            out@.len() == k,
            forall|j: int| 0 <= j < k ==> (#[trigger] out@[j])@ == spec_join(dirs@[j]@, name@),
        decreases dirs.len() - k,
    {
        let p = join_path(dirs[k].as_slice(), name);
        out.push(p);
        k = k + 1;
    }
    assert(names_view(out@) =~= places(name@, names_view(dirs@)));
    out
}

/// For every needed library that is not a system library, the places where
/// it may be. The first place at which a file exists is the library; a
/// library that is at none of them is left to the Runner.
pub fn library_candidates(libraries: &Vec<Vec<u8>>, dirs: &Vec<Vec<u8>>) -> (out: Vec<
    LibraryCandidates,
>)
    ensures
        candidates_view(out@) == spec_candidates(names_view(libraries@), names_view(dirs@)),
{
    let mut out: Vec<LibraryCandidates> = Vec::new();
    let ghost names = names_view(libraries@);
    let mut k: usize = 0;
    assert(names.subrange(0, 0) =~= Seq::<Seq<u8>>::empty());
    assert(candidates_view(out@) =~= Seq::<LibraryCandidatesView>::empty());
    while k < libraries.len()
        invariant
            k <= libraries.len(),
            names == names_view(libraries@),
            candidates_view(out@) == spec_candidates(names.subrange(0, k as int), names_view(dirs@)),
        decreases libraries.len() - k,
    {
        let ghost before = candidates_view(out@);
        proof {
            let upto = names.subrange(0, k + 1);
            assert(upto.drop_last() =~= names.subrange(0, k as int));
            assert(upto.last() == libraries@[k as int]@);
        }
        if !is_system_name(libraries[k].as_slice()) {
            let name = to_vec(libraries[k].as_slice());
            let paths = places_of(libraries[k].as_slice(), dirs);
            let c = LibraryCandidates { name, paths };
            out.push(c);
            assert(candidates_view(out@) =~= before.push(c@));
        }
        k = k + 1;
    }
    assert(names.subrange(0, libraries.len() as int) =~= names);
    out
}

/// Reads an executable and lists, for every library it needs that is not a
/// system library, the places where the run path says it may be.
pub fn resolve_library_dependencies(exe_data: &[u8]) -> (out: Vec<LibraryCandidates>)
    ensures
        candidates_view(out@) == match elf_dynamic(exe_data@) {
            Some(d) => spec_candidates(d.libraries, spec_search_paths(d)),
            None => Seq::empty(),
        },
{
    let (libraries, dirs) = parse_elf_libraries(exe_data);
    let out = library_candidates(&libraries, &dirs);
    proof {
        if elf_dynamic(exe_data@) is None {
            assert(names_view(libraries@) =~= Seq::<Seq<u8>>::empty());
        }
    }
    out
}

/// Picks the first place at which something exists; `exists[i]` says
/// whether something exists at place `i`.
pub fn first_existing(exists: &[bool]) -> (r: Option<usize>)
    ensures
        match r {
            Some(i) => i < exists@.len() && exists@[i as int] && forall|j: int|
                0 <= j < i ==> !exists@[j],
            None => forall|j: int| 0 <= j < exists@.len() ==> !exists@[j],
        },
{
    let mut i: usize = 0;
    while i < exists.len()
        invariant
            i <= exists.len(),
            forall|j: int| 0 <= j < i ==> !exists@[j],
        decreases exists.len() - i,
    {
        if exists[i] {
            return Some(i);
        }
        i = i + 1;
    }
    None
}

/// The libraries that the Runner tries to fetch before a launch: the needed
/// libraries that do not belong to the C runtime, in order.
pub open spec fn spec_prefetch(names: Seq<Seq<u8>>) -> Seq<Seq<u8>>
    decreases names.len(),
{
    if names.len() == 0 {
        Seq::empty()
    } else if runtime_name(names.last()) {
        spec_prefetch(names.drop_last())
    } else {
        spec_prefetch(names.drop_last()).push(names.last())
    }
}

/// The needed libraries without those of the C runtime.
pub fn without_runtime(libraries: &Vec<Vec<u8>>) -> (out: Vec<Vec<u8>>)
    ensures
        names_view(out@) == spec_prefetch(names_view(libraries@)),
{
    let mut out: Vec<Vec<u8>> = Vec::new();
    let ghost names = names_view(libraries@);
    let mut k: usize = 0;
    assert(names.subrange(0, 0) =~= Seq::<Seq<u8>>::empty());
    assert(names_view(out@) =~= Seq::<Seq<u8>>::empty());
    while k < libraries.len()
        invariant
            k <= libraries.len(),
            names == names_view(libraries@),
            names_view(out@) == spec_prefetch(names.subrange(0, k as int)),
        decreases libraries.len() - k,
    {
        let ghost before = names_view(out@);
        proof {
            let upto = names.subrange(0, k + 1);
            assert(upto.drop_last() =~= names.subrange(0, k as int));
            assert(upto.last() == libraries@[k as int]@);
        }
        if !is_runtime_name(libraries[k].as_slice()) {
            out.push(to_vec(libraries[k].as_slice()));
            assert(names_view(out@) =~= before.push(libraries@[k as int]@));
        }
        k = k + 1;
    }
    assert(names.subrange(0, libraries.len() as int) =~= names);
    out
}

/// Reads an executable and lists the libraries to fetch before it is
/// launched. Bytes that are no ELF image give an empty list.
pub fn get_library_dependencies(elf_data: &[u8]) -> (out: Vec<Vec<u8>>)
    ensures
        names_view(out@) == match elf_dynamic(elf_data@) {
            Some(d) => spec_prefetch(d.libraries),
            None => Seq::empty(),
        },
{
    match parse_elf(elf_data) {
        Some(d) => without_runtime(&d.libraries),
        None => {
            let out: Vec<Vec<u8>> = Vec::new();
            assert(names_view(out@) =~= Seq::<Seq<u8>>::empty());
            out
        },
    }
}

} // verus!
