//! NUL-terminated strings and the NULL-terminated table that hands them to
//! the `exec` family.

use vstd::prelude::*;
use crate::error::PosixError;

verus! {

/// `s` holds a NUL byte.
pub open spec fn has_nul(s: Seq<u8>) -> bool {
    exists|i: int| 0 <= i < s.len() && s[i] == 0
}

/// One of the byte strings of `list` holds a NUL byte.
pub open spec fn any_has_nul(list: Seq<Vec<u8>>) -> bool {
    exists|k: int| 0 <= k < list.len() && has_nul(#[trigger] list[k]@)
}

/// The contents of each byte string of `list`.
pub open spec fn contents(list: Seq<Vec<u8>>) -> Seq<Seq<u8>> {
    Seq::new(list.len(), |k: int| list[k]@)
}

/// The table for `n` strings: entry `k` refers to string `k`, and one more
/// entry at the end refers to nothing.
pub open spec fn table_for(n: nat) -> Seq<Option<usize>> {
    Seq::new(n + 1, |k: int| if k < n { Some(k as usize) } else { None })
}

/// `c` is a C string: it ends in a NUL and holds no other.
pub open spec fn is_c_string(c: Seq<u8>) -> bool {
    c.len() > 0 && c.last() == 0 && !has_nul(c.drop_last())
}

/// Whether `s` holds a NUL byte.
pub fn contains_nul(s: &[u8]) -> (b: bool)
    ensures
        b == has_nul(s@),
{
    let n: usize = s.len();
    let mut i: usize = 0;
    while i < n
        invariant
            n == s@.len(),
            i <= n,
            forall|j: int| 0 <= j < i ==> s@[j] != 0,
        decreases n - i,
    {
        if s[i] == 0 {
            return true;
        }
        i += 1;
    }
    false
}

/// The bytes of `s` with a NUL after them, or the invalid-argument error
/// where `s` holds a NUL already.
pub fn os_to_cstring(s: &[u8]) -> (r: Result<Vec<u8>, PosixError>)
    ensures
        has_nul(s@) ==> r == Err::<Vec<u8>, PosixError>(PosixError::InvalidArgument),
        !has_nul(s@) ==> r is Ok && r.unwrap()@ == s@.push(0),
{
    let n: usize = s.len();
    let mut out: Vec<u8> = Vec::with_capacity(n);
    let mut i: usize = 0;
    while i < n
        invariant
            n == s@.len(),
            i <= n,
            out@ == s@.take(i as int),
            forall|j: int| 0 <= j < i ==> s@[j] != 0,
        decreases n - i,
    {
        let b: u8 = s[i];
        if b == 0 {
            return Err(PosixError::InvalidArgument);
        }
        out.push(b);
        proof {
            assert(s@.take(i + 1) =~= s@.take(i as int).push(b));
        }
        i += 1;
    }
    proof {
        assert(s@.take(n as int) =~= s@);
    }
    out.push(0);
    Ok(out)
}

/// A list of C strings as the `exec` family takes it: the strings, each with
/// its NUL, and a table with one entry for each string and a null entry at
/// the end. An entry is the index of the string it refers to.
#[derive(Debug)]
pub struct CVec {
    strings: Vec<Vec<u8>>,
    ptrs: Vec<Option<usize>>,
}

impl CVec {
    /// The strings, without the NUL that ends each.
    pub closed spec fn view(&self) -> Seq<Seq<u8>> {
        Seq::new(self.strings@.len(), |k: int| self.strings@[k]@.drop_last())
    }

    /// The buffers as they are held: each string with its NUL.
    pub closed spec fn buffers(&self) -> Seq<Seq<u8>> {
        Seq::new(self.strings@.len(), |k: int| self.strings@[k]@)
    }

    /// The table of references into the buffers.
    pub closed spec fn table(&self) -> Seq<Option<usize>> {
        self.ptrs@
    }

    /// The table has one entry for each buffer, in order, and a null entry
    /// at the end; each buffer is a NUL-free string and then one NUL.
    pub open spec fn wf(&self) -> bool {
        &&& self.buffers().len() == self@.len()
        &&& self.table() == table_for(self@.len())
        &&& forall|k: int|
            0 <= k < self@.len() ==> !has_nul(#[trigger] self@[k]) && self.buffers()[k]
                == self@[k].push(0)
    }

    /// Builds the buffers and the table for `slice`. Fails where one of the
    /// strings holds a NUL byte.
    pub fn new(slice: &[Vec<u8>]) -> (r: Result<CVec, PosixError>)
        ensures
            any_has_nul(slice@) ==> r == Err::<CVec, PosixError>(PosixError::InvalidArgument),
            !any_has_nul(slice@) ==> r is Ok && r.unwrap().wf() && r.unwrap()@ == contents(
                slice@,
            ),
    {
        let n: usize = slice.len();
        let mut strings: Vec<Vec<u8>> = Vec::with_capacity(n);
        let mut i: usize = 0;
        while i < n
            invariant
                n == slice@.len(),
                i <= n,
                strings@.len() == i,
                forall|k: int| 0 <= k < i ==> !has_nul(#[trigger] slice@[k]@),
                forall|k: int| 0 <= k < i ==> (#[trigger] strings@[k])@ == slice@[k]@.push(0),
            decreases n - i,
        {
            match os_to_cstring(slice[i].as_slice()) {
                Ok(c) => {
                    strings.push(c);
                },
                Err(_) => {
                    return Err(PosixError::InvalidArgument);
                },
            }
            i += 1;
        }
        let mut ptrs: Vec<Option<usize>> = Vec::with_capacity(n);
        let mut j: usize = 0;
        while j < n
            invariant
                j <= n,
                ptrs@.len() == j,
                forall|k: int| 0 <= k < j ==> #[trigger] ptrs@[k] == Some(k as usize),
            decreases n - j,
        {
            ptrs.push(Some(j));
            j += 1;
        }
        ptrs.push(None);
        let v = CVec { strings, ptrs };
        proof {
            assert(v.table() =~= table_for(n as nat));
            assert forall|k: int| 0 <= k < n implies v@[k] == slice@[k]@ by {
                assert(strings@[k]@ == slice@[k]@.push(0));
                assert(slice@[k]@.push(0).drop_last() =~= slice@[k]@);
            }
            assert(v@ =~= contents(slice@));
        }
        Ok(v)
    }

    /// How many strings there are.
    pub fn len(&self) -> (n: usize)
        ensures
            n == self@.len(),
    {
        self.strings.len()
    }

    /// The `k`-th buffer: the string and its NUL.
    pub fn buffer(&self, k: usize) -> (b: &[u8])
        requires
            k < self@.len(),
        ensures
            b@ == self.buffers()[k as int],
    {
        self.strings[k].as_slice()
    }

    /// The table of references, null entry included.
    pub fn as_c_vec(&self) -> (t: &[Option<usize>])
        ensures
            t@ == self.table(),
    {
        self.ptrs.as_slice()
    }
}

} // verus!
