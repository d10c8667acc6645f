//! What an ext4-backed inode decides by itself: its file position, how a
//! directory lookup or open answer is read, and how packed program files are named.

use vstd::prelude::*;

verus! {

/// Inode number of the root directory of an ext4 volume.
pub const ROOT_INO: u32 = 2;

/// The file position of an ext4 inode; reads and writes through it are
/// driven by a `BufferCursor`.
pub struct Ext4InodeInner {
    pub fpos: usize,
}

/// The inode that a directory lookup, or an open, found: nothing where the
/// volume reported no such entry (`None`), and nothing for inode number 0,
/// which names no inode.
pub fn child_ino(found: Option<u64>) -> (r: Option<u32>)
    ensures
        found is None ==> r is None,
        found == Some(0u64) ==> r is None,
        found is Some && found->0 != 0 ==> r == Some(found->0 as u32),
{
    match found {
        Some(n) => if n == 0 {
            None
        } else {
            Some(n as u32)
        },
        None => None,
    }
}

/// The name under which a program is stored: its file name up to the first
/// dot.
pub fn app_name(file_name: &str) -> (r: String)
    requires
        file_name@.contains('.'),
    ensures
        exists|k: int|
            0 <= k < file_name@.len() && file_name@[k] == '.' && (forall|j: int|
                0 <= j < k ==> file_name@[j] != '.') && r@ == file_name@.subrange(0, k),
{
    let n = file_name.unicode_len();
    let mut i: usize = 0;
    while i < n
        invariant
            n == file_name@.len(),
            i <= n,
            file_name@.contains('.'),
            forall|j: int| 0 <= j < i ==> file_name@[j] != '.',
        ensures
            i <= n,
            forall|j: int| 0 <= j < i ==> file_name@[j] != '.',
            i < n ==> file_name@[i as int] == '.',
        decreases n - i,
    {
        if file_name.get_char(i) == '.' {
            break;
        }
        i = i + 1;
    }
    proof {
        if i == n {
            let k = choose|k: int| 0 <= k < file_name@.len() && file_name@[k] == '.';
            assert(file_name@[k] != '.');
        }
    }
    let r = file_name.substring_char(0, i).to_owned();
    assert(file_name@[i as int] == '.' && r@ == file_name@.subrange(0, i as int));
    r
}

} // verus!
