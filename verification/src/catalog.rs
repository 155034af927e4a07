//! The archive catalog: an ordered list of mounted archives, resolution of
//! a resource name to the first archive that contains it, and the naming
//! convention used to probe a game directory for numbered archives.

use vstd::prelude::*;
use vstd::string::StringSliceAdditionalSpecFns;

use crate::bytes::{bytes_eq, spec_decimal, decimal_bytes};
use crate::packfile::{PackError, PackFile, PackResult, parse_directory, spec_directory_ok};

verus! {

/// One mounted archive: its file name, its directory entries in on-disk
/// order, and the handle of its backing storage file.
pub struct Pack {
    pub name: String,
    pub files: Vec<PackFile>,
    pub handle: usize,
}

/// Whether some entry of the sequence is named `name`.
pub open spec fn spec_has_entry(files: Seq<PackFile>, name: Seq<u8>) -> bool {
    exists|i: int| 0 <= i < files.len() && files[i].name@ == name
}

/// The index of the first entry named `name`.
pub open spec fn spec_entry_index(files: Seq<PackFile>, name: Seq<u8>) -> int
    decreases files.len(),
{
    if files.len() == 0 {
        0
    } else if files[0].name@ == name {
        0
    } else {
        1 + spec_entry_index(files.skip(1), name)
    }
}

pub proof fn lemma_entry_index(files: Seq<PackFile>, name: Seq<u8>)
    requires
        spec_has_entry(files, name),
    ensures
        0 <= spec_entry_index(files, name) < files.len(),
        files[spec_entry_index(files, name)].name@ == name,
        forall|k: int| 0 <= k < spec_entry_index(files, name) ==> files[k].name@ != name,
    decreases files.len(),
{
    if files.len() > 0 && files[0].name@ != name {
        assert(spec_has_entry(files.skip(1), name)) by {
            let i = choose|i: int| 0 <= i < files.len() && files[i].name@ == name;
            assert(files.skip(1)[i - 1].name@ == name);
        }
        lemma_entry_index(files.skip(1), name);
        assert forall|k: int| 0 <= k < spec_entry_index(files, name) implies files[k].name@
            != name by {
            if k > 0 {
                assert(files.skip(1)[k - 1].name@ != name);
            }
        }
    }
}

impl Pack {
    pub open spec fn wf(self) -> bool {
        forall|i: int| 0 <= i < self.files@.len() ==> (#[trigger] self.files@[i]).wf()
    }

    /// Builds one archive's in-memory index from its directory image, as
    /// read from storage at the offset the header gave.
    pub fn from_directory(name: String, handle: usize, directory: &[u8]) -> (r: PackResult<Pack>)
        ensures
            r is Ok <==> spec_directory_ok(directory@),
            r matches Ok(p) ==> {
                &&& p.name@ == name@
                &&& p.handle == handle
                &&& p.wf()
                &&& p.files@.len() == directory@.len() / 64
                &&& forall|i: int| 0 <= i < p.files@.len() ==> (#[trigger] p.files@[i]).name@
                    == crate::packfile::spec_entry_name(crate::packfile::spec_record(directory@, i))
                &&& forall|i: int| 0 <= i < p.files@.len() ==> (#[trigger] p.files@[i]).position
                    == crate::bytes::spec_le_i32(directory@, 64 * i + 56)
                &&& forall|i: int| 0 <= i < p.files@.len() ==> (#[trigger] p.files@[i]).length
                    == crate::bytes::spec_le_i32(directory@, 64 * i + 60)
            },
            r matches Err(e) ==> (e == PackError::FormatError <==> directory@.len() % 64 != 0)
                && (e == PackError::FormatError || e == PackError::DecodeError),
    {
        let files = parse_directory(directory)?;
        Ok(Pack { name, files, handle })
    }

    /// The index of the first entry named `name`, if any entry is.
    pub fn find(&self, name: &[u8]) -> (r: Option<usize>)
        ensures
            r is Some <==> spec_has_entry(self.files@, name@),
            r matches Some(i) ==> i == spec_entry_index(self.files@, name@)
                && i < self.files@.len() && self.files@[i as int].name@ == name@,
    {
        let n = self.files.len();
        let mut i: usize = 0;
        while i < n
            invariant
                i <= n,
                n == self.files@.len(),
                forall|k: int| 0 <= k < i ==> (#[trigger] self.files@[k]).name@ != name@,
            decreases n - i,
        {
            if bytes_eq(self.files[i].name.as_slice(), name) {
                proof {
                    lemma_entry_index(self.files@, name@);
                }
                return Some(i);
            }
            i += 1;
        }
        proof {
            if spec_has_entry(self.files@, name@) {
                let k = choose|k: int| 0 <= k < n && self.files@[k].name@ == name@;
                assert(self.files@[k].name@ != name@);
            }
        }
        None
    }
}

/// Where a resolved resource lives: which archive in mount order, which
/// entry of its directory, the storage handle, and the entry's byte range.
#[derive(Debug, Clone, Copy, PartialEq, Eq, Structural)]
pub struct Location {
    pub pack: usize,
    pub entry: usize,
    pub handle: usize,
    pub position: i32,
    pub length: i32,
}

/// The ordered catalog of mounted archives. Mount order is precedence
/// order: resolution tries archives front to back and the first archive
/// containing a name shadows every later one.
pub struct PackContainer {
    pub files: Vec<Pack>,
}

/// Whether some mounted archive contains an entry named `name`.
pub open spec fn spec_catalog_has(packs: Seq<Pack>, name: Seq<u8>) -> bool {
    exists|i: int| 0 <= i < packs.len() && spec_has_entry(packs[i].files@, name)
}

/// The index, in mount order, of the first archive containing `name`.
pub open spec fn spec_catalog_index(packs: Seq<Pack>, name: Seq<u8>) -> int
    decreases packs.len(),
{
    if packs.len() == 0 {
        0
    } else if spec_has_entry(packs[0].files@, name) {
        0
    } else {
        1 + spec_catalog_index(packs.skip(1), name)
    }
}

pub proof fn lemma_catalog_index(packs: Seq<Pack>, name: Seq<u8>)
    requires
        spec_catalog_has(packs, name),
    ensures
        0 <= spec_catalog_index(packs, name) < packs.len(),
        spec_has_entry(packs[spec_catalog_index(packs, name)].files@, name),
        forall|k: int| 0 <= k < spec_catalog_index(packs, name) ==> !spec_has_entry(
            packs[k].files@,
            name,
        ),
    decreases packs.len(),
{
    if packs.len() > 0 && !spec_has_entry(packs[0].files@, name) {
        assert(spec_catalog_has(packs.skip(1), name)) by {
            let i = choose|i: int| 0 <= i < packs.len() && spec_has_entry(packs[i].files@, name);
            assert(spec_has_entry(packs.skip(1)[i - 1].files@, name));
        }
        lemma_catalog_index(packs.skip(1), name);
        assert forall|k: int| 0 <= k < spec_catalog_index(packs, name) implies !spec_has_entry(
            packs[k].files@,
            name,
        ) by {
            if k > 0 {
                assert(!spec_has_entry(packs.skip(1)[k - 1].files@, name));
            }
        }
    }
}

impl PackContainer {
    pub open spec fn wf(self) -> bool {
        forall|i: int| 0 <= i < self.files@.len() ==> (#[trigger] self.files@[i]).wf()
    }

    pub fn new() -> (r: PackContainer)
        ensures
            r.files@ == Seq::<Pack>::empty(),
            r.wf(),
    {
        PackContainer { files: Vec::new() }
    }

    /// Appends one parsed archive at the end of the catalog. Archives
    /// mounted earlier keep precedence over this one.
    pub fn mount(&mut self, pack: Pack)
        requires
            pack.wf(),
        ensures
            final(self).files@ == old(self).files@.push(pack),
            old(self).wf() ==> final(self).wf(),
    {
        self.files.push(pack);
    }

    /// How many archives are mounted.
    pub fn len(&self) -> (n: usize)
        ensures
            n == self.files@.len(),
    {
        self.files.len()
    }

    /// The archive at `idx` in mount order.
    pub fn get(&self, idx: usize) -> (r: &Pack)
        requires
            idx < self.files@.len(),
        ensures
            *r == self.files@[idx as int],
    {
        &self.files[idx]
    }

    /// Resolves a resource name: tries the mounted archives in mount order
    /// and returns where the name's bytes live in the first archive that
    /// contains it. First match wins; later archives of the same name are
    /// shadowed. Fails with `NotFoundError` exactly when no mounted archive
    /// contains the name.
    pub fn resolve(&self, name: &str) -> (r: PackResult<Location>)
        ensures
            r is Ok <==> spec_catalog_has(self.files@, name.spec_bytes()),
            r matches Ok(loc) ==> {
                let p = spec_catalog_index(self.files@, name.spec_bytes());
                let e = spec_entry_index(self.files@[p].files@, name.spec_bytes());
                &&& loc.pack == p
                &&& loc.entry == e
                &&& loc.handle == self.files@[p].handle
                &&& loc.position == self.files@[p].files@[e].position
                &&& loc.length == self.files@[p].files@[e].length
            },
            r matches Err(e) ==> e == PackError::NotFoundError,
    {
        let needle = name.as_bytes();
        let n = self.files.len();
        let mut i: usize = 0;
        while i < n
            invariant
                i <= n,
                n == self.files@.len(),
                needle@ == name.spec_bytes(),
                forall|k: int| 0 <= k < i ==> !spec_has_entry(
                    (#[trigger] self.files@[k]).files@,
                    needle@,
                ),
            decreases n - i,
        {
            let pack = &self.files[i];
            if let Some(e) = pack.find(needle) {
                proof {
                    lemma_catalog_index(self.files@, needle@);
                }
                let entry = &pack.files[e];
                return Ok(Location {
                    pack: i,
                    entry: e,
                    handle: pack.handle,
                    position: entry.position,
                    length: entry.length,
                });
            }
            i += 1;
        }
        proof {
            if spec_catalog_has(self.files@, needle@) {
                let k = choose|k: int|
                    0 <= k < n && spec_has_entry(self.files@[k].files@, needle@);
                assert(!spec_has_entry(self.files@[k].files@, needle@));
            }
        }
        Err(PackError::NotFoundError)
    }
}

/// Law: the first-mounted archive containing a name shadows later ones.
/// When archive `a` was mounted before archive `b` and both contain `name`,
/// resolution never answers out of `b`: it answers out of `a` or an archive
/// mounted earlier still.
pub proof fn lemma_first_mounted_wins(packs: Seq<Pack>, a: int, b: int, name: Seq<u8>)
    requires
        0 <= a < b < packs.len(),
        spec_has_entry(packs[a].files@, name),
        spec_has_entry(packs[b].files@, name),
    ensures
        spec_catalog_has(packs, name),
        spec_catalog_index(packs, name) <= a,
{
    assert(spec_catalog_has(packs, name));
    lemma_catalog_index(packs, name);
    if spec_catalog_index(packs, name) > a {
        assert(!spec_has_entry(packs[a].files@, name));
    }
}

/// The file name `PAK<i>.PAK` of the `i`-th archive of a game directory,
/// as ASCII bytes.
pub open spec fn spec_pak_file_name(i: int) -> Seq<u8> {
    seq![0x50u8, 0x41u8, 0x4bu8] + spec_decimal(i) + seq![0x2eu8, 0x50u8, 0x41u8, 0x4bu8]
}

/// Renders the conventional archive file name `PAK<i>.PAK`.
pub fn pak_file_name(i: usize) -> (r: Vec<u8>)
    ensures
        r@ == spec_pak_file_name(i as int),
{
    let mut v: Vec<u8> = Vec::new();
    v.push(0x50);  // 'P'
    v.push(0x41);  // 'A'
    v.push(0x4b);  // 'K'
    let mut digits = decimal_bytes(i);
    let nd = digits.len();
    let mut k: usize = 0;
    while k < nd
        invariant
            k <= nd,
            nd == digits@.len(),
            digits@ == spec_decimal(i as int),
            v@ == seq![0x50u8, 0x41u8, 0x4bu8] + digits@.take(k as int),
        decreases nd - k,
    {
        v.push(digits[k]);
        k += 1;
        proof {
            assert(v@ =~= seq![0x50u8, 0x41u8, 0x4bu8] + digits@.take(k as int));
        }
    }
    v.push(0x2e);  // '.'
    v.push(0x50);  // 'P'
    v.push(0x41);  // 'A'
    v.push(0x4b);  // 'K'
    proof {
        assert(digits@.take(nd as int) == digits@);
        assert(v@ =~= spec_pak_file_name(i as int));
    }
    v
}

/// The order in which a game directory's numbered archives are probed and
/// mounted: highest number first, down to zero. Mounting in this order
/// gives higher-numbered archives precedence over lower-numbered ones.
pub fn mount_order(highest: usize) -> (r: Vec<usize>)
    requires
        highest < usize::MAX,
    ensures
        r@.len() == highest + 1,
        forall|k: int| 0 <= k <= highest ==> r@[k] == highest - k,
{
    let mut v: Vec<usize> = Vec::new();
    let n = highest + 1;
    let mut k: usize = 0;
    while k < n
        invariant
            n == highest + 1,
            k <= n,
            v@.len() == k,
            forall|j: int| 0 <= j < k ==> v@[j] == highest - j,
        decreases n - k,
    {
        v.push(highest - k);
        k += 1;
    }
    v
}

/// Law: the probing order visits a higher-numbered archive strictly before
/// every lower-numbered one, so the higher number is mounted first and
/// shadows the lower where both hold a resource of one name.
pub proof fn lemma_mount_order_descending(order: Seq<usize>, highest: int)
    requires
        order.len() == highest + 1,
        forall|k: int| 0 <= k <= highest ==> order[k] == highest - k,
    ensures
        forall|j: int, k: int| 0 <= j < k <= highest ==> order[j] > order[k],
{
}

} // verus!
