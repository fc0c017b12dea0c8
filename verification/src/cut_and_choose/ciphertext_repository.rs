//! Where ciphertexts are stored and read from.

use crate::bytes::{decimal, decimal_string, from_be, lemma_decimal_unique, to_be};
use crate::label::S;
use vstd::prelude::*;
use vstd::string::StringExecFns;

verus! {

/// Gives the source of an instance's ciphertexts.
pub trait CiphertextSourceProvider {
    type Source;

    type Error;

    fn source_for(&self, index: usize) -> Result<Self::Source, Self::Error>;
}

/// Gives what takes an instance's ciphertexts.
pub trait CiphertextHandlerProvider {
    type Handler;

    type Error;

    fn handler_for(&self, index: usize) -> Result<Self::Handler, Self::Error>;
}

/// The name of the file that holds an instance's ciphertexts.
pub open spec fn file_name(index: nat) -> Seq<char> {
    "gc_"@ + decimal(index) + ".bin"@
}

/// No two instances share a file.
pub proof fn lemma_file_names_differ(a: nat, b: nat)
    requires
        file_name(a) == file_name(b),
    ensures
        a == b,
{
    let x = file_name(a);
    let n = "gc_"@.len() as int;
    let m = ".bin"@.len() as int;
    assert(x.len() == n + decimal(a).len() + m);
    assert(x.len() == n + decimal(b).len() + m);
    assert(x.subrange(n, x.len() - m) =~= decimal(a));
    assert(x.subrange(n, x.len() - m) =~= decimal(b));
    lemma_decimal_unique(a, b);
}

/// The name starts and ends the same for all instances, with the digits of the
/// index between.
pub proof fn lemma_file_name(index: nat)
    ensures
        ({
            let f = file_name(index);
            let n = decimal(index).len() as int;
            &&& f.len() == n + 7
            &&& f[0] == 'g' && f[1] == 'c' && f[2] == '_'
            &&& f.subrange(3, 3 + n) == decimal(index)
            &&& f[3 + n] == '.' && f[4 + n] == 'b' && f[5 + n] == 'i' && f[6 + n] == 'n'
        }),
{
    reveal_strlit("gc_");
    reveal_strlit(".bin");
    let n = decimal(index).len() as int;
    assert(file_name(index).subrange(3, 3 + n) =~= decimal(index));
}

pub fn ciphertext_file_name(index: usize) -> (r: String)
    ensures
        r@ == file_name(index as nat),
{
    let mut s = String::from_str("gc_");
    s.append(decimal_string(index).as_str());
    s.append(".bin");
    s
}

/// The first position at which an index is listed.
pub open spec fn first_listed<T>(entries: Seq<(usize, T)>, index: usize, from: int) -> Option<int>
    decreases entries.len() - from,
{
    if from < 0 || from >= entries.len() {
        None
    } else if entries[from].0 == index {
        Some(from)
    } else {
        first_listed(entries, index, from + 1)
    }
}

/// What is listed first: nothing stands there for the index before, and where
/// nothing is found, it is not listed.
pub proof fn lemma_first_listed<T>(entries: Seq<(usize, T)>, index: usize, from: int)
    requires
        0 <= from,
    ensures
        match first_listed(entries, index, from) {
            Some(i) => {
                &&& from <= i < entries.len()
                &&& entries[i].0 == index
                &&& forall|j: int| from <= j < i ==> (#[trigger] entries[j]).0 != index
            },
            None => forall|j: int| from <= j < entries.len() ==> (#[trigger] entries[j]).0 != index,
        },
    decreases entries.len() - from,
{
    if from < entries.len() && entries[from].0 != index {
        lemma_first_listed(entries, index, from + 1);
    }
}

/// Finds the source that is listed first for an instance.
pub fn listed_source<'a, T>(entries: &'a Vec<(usize, T)>, index: usize) -> (r: Result<&'a T, ()>)
    ensures
        r is Err <==> forall|j: int| 0 <= j < entries@.len() ==> (#[trigger] entries@[j]).0 != index,
        forall|i: int|
            0 <= i < entries@.len() && (#[trigger] entries@[i]).0 == index && (forall|j: int|
                0 <= j < i ==> (#[trigger] entries@[j]).0 != index) ==> r == Ok::<&'a T, ()>(
                &entries@[i].1,
            ),
        match first_listed(entries@, index, 0) {
            Some(i) => 0 <= i < entries@.len() && r == Ok::<&'a T, ()>(&entries@[i].1),
            None => r is Err,
        },
{
    proof {
        lemma_first_listed(entries@, index, 0);
    }
    let mut i: usize = 0;
    while i < entries.len()
        invariant
            i <= entries@.len(),
            first_listed(entries@, index, 0) == first_listed(entries@, index, i as int),
            forall|j: int| 0 <= j < i ==> (#[trigger] entries@[j]).0 != index,
        decreases entries@.len() - i,
    {
        if entries[i].0 == index {
            return Ok(&entries[i].1);
        }
        i = i + 1;
    }
    Err(())
}

/// The size from which on a file counts as large.
pub open spec fn large_file() -> nat {
    10 * 1073741824
}

/// The size of the write buffer: larger for large files.
pub fn buffer_size(pre_allocate: Option<u64>) -> (r: usize)
    ensures
        r == 33554432 || r == 1048576,
        r == 33554432 <==> pre_allocate is Some && pre_allocate->0 > 10737418240,
        r == (if pre_allocate is Some && pre_allocate->0 > large_file() {
            33554432usize
        } else {
            1048576usize
        }),
{
    let size: u64 = match pre_allocate {
        Some(s) => s,
        None => 0,
    };
    if size > 10737418240 {
        33554432
    } else {
        1048576
    }
}

/// What is known of the file that takes an instance's ciphertexts.
#[derive(Debug)]
pub struct FileCiphertextHandler {
    pub path: String,
    /// The size that the file is given at first.
    pub pre_allocate: Option<u64>,
    pub buffer_size: usize,
    pub bytes_written: u64,
}

impl FileCiphertextHandler {
    pub fn create(path: String, pre_allocate: Option<u64>) -> (r: Self)
        ensures
            r.path == path,
            r.pre_allocate == pre_allocate,
            r.buffer_size == (if pre_allocate is Some && pre_allocate->0 > large_file() {
                33554432usize
            } else {
                1048576usize
            }),
            r.buffer_size == 33554432 <==> pre_allocate is Some && pre_allocate->0 > 10737418240,
            r.bytes_written == 0,
    {
        FileCiphertextHandler {
            path,
            pre_allocate,
            buffer_size: buffer_size(pre_allocate),
            bytes_written: 0,
        }
    }

    /// Counts a ciphertext and gives the bytes to be written for it.
    pub fn handle(&mut self, ct: S) -> (r: [u8; 16])
        requires
            old(self).bytes_written + 16 <= u64::MAX,
        ensures
            r@ == to_be(ct.0 as nat, 16),
            from_be(r@) == ct.0,
            final(self).bytes_written == old(self).bytes_written + 16,
            final(self).path == old(self).path,
            final(self).pre_allocate == old(self).pre_allocate,
            final(self).buffer_size == old(self).buffer_size,
    {
        self.bytes_written = self.bytes_written + 16;
        ct.to_bytes()
    }

    /// The size that the file is given at last: what was written.
    pub fn final_size(&self) -> (r: u64)
        ensures
            r == self.bytes_written,
    {
        self.bytes_written
    }
}

/// Files for ciphertexts in one directory.
#[derive(Debug)]
pub struct FileCiphertextHandlerProvider {
    pub root: String,
    pub pre_allocate: Option<u64>,
}

impl FileCiphertextHandlerProvider {
    pub fn new(root: String, pre_allocate: Option<u64>) -> (r: Self)
        ensures
            r.root == root,
            r.pre_allocate == pre_allocate,
    {
        FileCiphertextHandlerProvider { root, pre_allocate }
    }

    /// The file of an instance, below the directory.
    pub fn handler(&self, index: usize) -> (r: FileCiphertextHandler)
        ensures
            r.path@ == file_name(index as nat),
            r.pre_allocate == self.pre_allocate,
            r.buffer_size == (if self.pre_allocate is Some && self.pre_allocate->0 > large_file() {
                33554432usize
            } else {
                1048576usize
            }),
            r.bytes_written == 0,
    {
        FileCiphertextHandler::create(ciphertext_file_name(index), self.pre_allocate)
    }
}

} // verus!
