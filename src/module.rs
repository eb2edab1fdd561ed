use vstd::prelude::*;
use crate::pattern::Signature;

verus! {

/// The signature matches `data` at offset `i`: it fits there, and every
/// exact position holds the signature's byte.
pub open spec fn matches_at(data: Seq<u8>, bytes: Seq<u8>, mask: Seq<bool>, i: int) -> bool {
    &&& 0 <= i
    &&& i + bytes.len() <= data.len()
    &&& forall|j: int| 0 <= j < bytes.len() && mask[j] ==> data[i + j] == bytes[j]
}

/// `i` is the lowest offset at which a non-empty signature matches.
pub open spec fn first_match(data: Seq<u8>, bytes: Seq<u8>, mask: Seq<bool>, i: int) -> bool {
    &&& bytes.len() > 0
    &&& matches_at(data, bytes, mask, i)
    &&& forall|k: int| 0 <= k < i ==> !matches_at(data, bytes, mask, k)
}

/// No offset is a match: the signature is empty, or matches nowhere.
pub open spec fn no_match(data: Seq<u8>, bytes: Seq<u8>, mask: Seq<bool>) -> bool {
    bytes.len() == 0 || forall|k: int| !matches_at(data, bytes, mask, k)
}

/// A wildcard position accepts any byte: changing the byte under it keeps a
/// match a match.
pub proof fn wildcard_matches_any(
    data: Seq<u8>,
    bytes: Seq<u8>,
    mask: Seq<bool>,
    i: int,
    j: int,
    v: u8,
)
    requires
        bytes.len() == mask.len(),
        matches_at(data, bytes, mask, i),
        0 <= j < bytes.len(),
        !mask[j],
    ensures
        matches_at(data.update(i + j, v), bytes, mask, i),
{
    let d = data.update(i + j, v);
    assert forall|m: int| 0 <= m < bytes.len() && mask[m] implies d[i + m] == bytes[m] by {
        assert(m != j);
    }
}

/// Scans `data` left to right for `sig` and returns the lowest offset at
/// which it matches. An empty signature, or one longer than `data`, matches
/// nowhere.
pub fn find_offset(data: &[u8], sig: &Signature) -> (r: Option<usize>)
    requires
        sig.wf(),
    ensures
        match r {
            Some(i) => first_match(data@, sig.bytes@, sig.mask@, i as int),
            None => no_match(data@, sig.bytes@, sig.mask@),
        },
        sig.bytes@.len() == 0 || sig.bytes@.len() > data@.len() ==> r is None,
{
    let len = sig.bytes.len();
    if len == 0 || len > data.len() {
        return None;
    }
    let last = data.len() - len;
    let mut i: usize = 0;
    while i <= last
        invariant
            sig.wf(),
            len == sig.bytes@.len(),
            0 < len <= data@.len() <= usize::MAX,
            last == data@.len() - len,
            i <= last + 1,
            forall|k: int| 0 <= k < i ==> !matches_at(data@, sig.bytes@, sig.mask@, k),
        decreases last + 1 - i,
    {
        let mut j: usize = 0;
        let mut ok = true;
        while j < len
            invariant
                sig.wf(),
                len == sig.bytes@.len(),
                i + len <= data@.len() <= usize::MAX,
                j <= len,
                ok ==> forall|m: int|
                    0 <= m < j && sig.mask@[m] ==> data@[i + m] == sig.bytes@[m],
                !ok ==> !matches_at(data@, sig.bytes@, sig.mask@, i as int),
            decreases len - j,
        {
            if ok && sig.mask[j] && data[i + j] != sig.bytes[j] {
                ok = false;
            }
            j += 1;
        }
        if ok {
            return Some(i);
        }
        i += 1;
    }
    None
}

/// A loaded module's mapped image: `size` bytes starting at address `base`.
/// The handle is the loader's, carried for lookups by name.
#[derive(Debug, PartialEq, Eq, Default, Clone)]
pub struct Module {
    pub name: String,
    pub handle: usize,
    pub size: usize,
    pub base: usize,
}

impl Module {
    /// The image ends within the address space.
    pub open spec fn wf(&self) -> bool {
        self.base + self.size <= usize::MAX + 1
    }

    /// A module record for the image of `size` bytes at `base`; `None` where
    /// the image would run past the end of the address space.
    pub fn from_parts(name: String, handle: usize, base: usize, size: usize) -> (r: Option<Module>)
        ensures
            base + size <= usize::MAX + 1 <==> r is Some,
            r matches Some(m) ==> m.wf() && m.name == name && m.handle == handle && m.base
                == base && m.size == size,
    {
        if size > 0 && base > usize::MAX - (size - 1) {
            None
        } else {
            Some(Module { name, handle, size, base })
        }
    }

    /// Searches `sig` in the module's image, whose bytes are `image`, and
    /// returns the address of the lowest match.
    pub fn find(&self, image: &[u8], sig: &Signature) -> (r: Option<usize>)
        requires
            self.wf(),
            image@.len() == self.size,
            sig.wf(),
        ensures
            match r {
                Some(a) => self.base <= a && first_match(
                    image@,
                    sig.bytes@,
                    sig.mask@,
                    a - self.base,
                ),
                None => no_match(image@, sig.bytes@, sig.mask@),
            },
    {
        match find_offset(image, sig) {
            Some(i) => Some(self.base + i),
            None => None,
        }
    }
}

/// Position of the first module named `name` in `modules`.
pub fn position_by_name(modules: &Vec<Module>, name: &str) -> (r: Option<usize>)
    ensures
        match r {
            Some(i) => i < modules@.len() && modules@[i as int].name@ == name@ && forall|k: int|
                0 <= k < i ==> modules@[k].name@ != name@,
            None => forall|k: int| 0 <= k < modules@.len() ==> modules@[k].name@ != name@,
        },
{
    let mut i: usize = 0;
    while i < modules.len()
        invariant
            i <= modules@.len(),
            forall|k: int| 0 <= k < i ==> modules@[k].name@ != name@,
        decreases modules@.len() - i,
    {
        if same_text(modules[i].name.as_str(), name) {
            return Some(i);
        }
        i += 1;
    }
    None
}

fn same_text(a: &str, b: &str) -> (r: bool)
    ensures
        r == (a@ == b@),
{
    let n = a.unicode_len();
    if n != b.unicode_len() {
        return false;
    }
    let mut k: usize = 0;
    while k < n
        invariant
            n == a@.len(),
            n == b@.len(),
            k <= n,
            forall|m: int| 0 <= m < k ==> a@[m] == b@[m],
        decreases n - k,
    {
        if a.get_char(k) != b.get_char(k) {
            return false;
        }
        k += 1;
    }
    assert(a@ =~= b@);
    true
}

} // verus!
