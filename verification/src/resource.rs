//! Resources and the file-kind classification of their paths.
//!
//! A resource couples a normalized path with a loaded value of some kind
//! (a texture bitmap, an imported model).  Which loader a path belongs to
//! is decided by its file extension, case-insensitively; an unrecognised
//! extension is its own, reported outcome.  Resource identity for
//! deduplication is exact equality on the stored path, not a content hash.

use vstd::prelude::*;
use vstd::utf8::encode_utf8;

verus! {

/// A loaded texture bitmap.
#[derive(Debug)]
pub struct Texture {
    pub width: u32,
    pub height: u32,
    pub pixels: Vec<u8>,
}

/// An imported model.
#[derive(Debug)]
pub struct Model {
    pub data: Vec<u8>,
}

/// The kinds of value a resource can hold.
#[derive(Debug)]
pub enum ResourceKind {
    Texture(Texture),
    Model(Model),
}

/// A cached resource: the normalized path it was requested under, and the
/// loaded value.
#[derive(Debug)]
pub struct Resource {
    pub path: String,
    pub kind: ResourceKind,
}

impl Resource {
    /// Couples a loaded value with the path it was requested under.
    pub fn new(path: String, kind: ResourceKind) -> (r: Resource)
        ensures
            r.path == path,
            r.kind == kind,
    {
        Resource { path, kind }
    }

    /// The normalized path this resource was loaded from.
    pub fn get_path(&self) -> (p: &String)
        ensures
            p == &self.path,
    {
        &self.path
    }

    /// The loaded value.
    pub fn borrow_kind(&self) -> (k: &ResourceKind)
        ensures
            k == &self.kind,
    {
        &self.kind
    }

    /// The loaded value, mutably.
    pub fn borrow_kind_mut(&mut self) -> (k: &mut ResourceKind)
        ensures
            *k == old(self).kind,
            final(self).kind == *final(k),
            final(self).path == old(self).path,
    {
        &mut self.kind
    }
}

/// Which loader a path belongs to, decided by its extension.
#[derive(Clone, Copy, PartialEq, Eq, Structural, Debug)]
pub enum ResourceClass {
    TextureFile,
    ModelFile,
    UnknownFile,
}

/// The position of the dot starting the extension among the first `n`
/// bytes: the last dot of the final path component, or `-1` when that
/// component has none.
pub open spec fn last_dot_from(bytes: Seq<u8>, n: int) -> int
    decreases n,
{
    if n <= 0 {
        -1
    } else if bytes[n - 1] == '.' as u8 {
        n - 1
    } else if bytes[n - 1] == '/' as u8 || bytes[n - 1] == '\\' as u8 {
        -1
    } else {
        last_dot_from(bytes, n - 1)
    }
}

/// The extension of a path given as UTF-8 bytes: what follows the last dot
/// of the final component, empty when there is none.
pub open spec fn extension_bytes(bytes: Seq<u8>) -> Seq<u8> {
    let d = last_dot_from(bytes, bytes.len() as int);
    if d < 0 {
        Seq::empty()
    } else {
        bytes.subrange(d + 1, bytes.len() as int)
    }
}

/// ASCII lower-casing of one byte.
pub open spec fn to_lower_byte(b: u8) -> u8 {
    if 'A' as u8 <= b <= 'Z' as u8 {
        (b + 32) as u8
    } else {
        b
    }
}

/// ASCII lower-casing of a byte sequence.
pub open spec fn lower_bytes(s: Seq<u8>) -> Seq<u8> {
    s.map_values(|b: u8| to_lower_byte(b))
}

/// Whether a lower-cased extension names a texture file.
pub open spec fn is_texture_extension(e: Seq<u8>) -> bool {
    ||| e == seq!['j' as u8, 'p' as u8, 'g' as u8]
    ||| e == seq!['j' as u8, 'p' as u8, 'e' as u8, 'g' as u8]
    ||| e == seq!['p' as u8, 'n' as u8, 'g' as u8]
    ||| e == seq!['t' as u8, 'i' as u8, 'f' as u8]
    ||| e == seq!['t' as u8, 'i' as u8, 'f' as u8, 'f' as u8]
    ||| e == seq!['t' as u8, 'g' as u8, 'a' as u8]
    ||| e == seq!['b' as u8, 'm' as u8, 'p' as u8]
}

/// Whether a lower-cased extension names a model file.
pub open spec fn is_model_extension(e: Seq<u8>) -> bool {
    e == seq!['f' as u8, 'b' as u8, 'x' as u8]
}

/// The loader class of a path given as UTF-8 bytes.
pub open spec fn classify_bytes(bytes: Seq<u8>) -> ResourceClass {
    let e = lower_bytes(extension_bytes(bytes));
    if is_texture_extension(e) {
        ResourceClass::TextureFile
    } else if is_model_extension(e) {
        ResourceClass::ModelFile
    } else {
        ResourceClass::UnknownFile
    }
}

/// The loader class of a path.
pub open spec fn class_of_path(path: Seq<char>) -> ResourceClass {
    classify_bytes(encode_utf8(path))
}

/// The loader class a path's extension selects, case-insensitively.
pub fn classify_path(path: &String) -> (c: ResourceClass)
    ensures
        c == class_of_path(path@),
{
    let bytes = path.as_str().as_bytes();
    let ghost bs = bytes@;
    let n = bytes.len();

    // Find the dot that starts the extension of the final path component.
    let mut k = n;
    let mut dot: usize = 0;
    let mut found = false;
    let mut stop = false;
    while k > 0 && !stop
        invariant
            bytes@ == bs,
            n == bs.len(),
            0 <= k <= n,
            !found && !stop ==> last_dot_from(bs, n as int) == last_dot_from(bs, k as int),
            !found && stop ==> last_dot_from(bs, n as int) == -1,
            found ==> stop && dot < n && last_dot_from(bs, n as int) == dot as int,
        decreases k, (if stop { 0int } else { 1int }),
    {
        let b = bytes[k - 1];
        if b == '.' as u8 {
            dot = k - 1;
            found = true;
            stop = true;
        } else if b == '/' as u8 || b == '\\' as u8 {
            stop = true;
        } else {
            k -= 1;
        }
    }

    if !found {
        proof {
            assert(last_dot_from(bs, n as int) == -1);
            assert(extension_bytes(bs) =~= Seq::<u8>::empty());
            assert(lower_bytes(extension_bytes(bs)).len() == 0);
        }
        return ResourceClass::UnknownFile;
    }

    // Lower-case the extension bytes.
    let start = dot + 1;
    let mut ext: Vec<u8> = Vec::new();
    let mut i = start;
    while i < n
        invariant
            bytes@ == bs,
            n == bs.len(),
            start <= i <= n,
            start == dot + 1,
            dot < n,
            ext@.len() == i - start,
            forall|j: int|
                0 <= j < ext@.len() ==> ext@[j] == to_lower_byte(bs[start + j]),
        decreases n - i,
    {
        let b = bytes[i];
        let lowered = if b >= 'A' as u8 && b <= 'Z' as u8 {
            b + 32
        } else {
            b
        };
        ext.push(lowered);
        i += 1;
    }
    proof {
        assert(ext@ =~= lower_bytes(extension_bytes(bs)));
    }

    let is_tex = ext_eq3(&ext, 'j' as u8, 'p' as u8, 'g' as u8) || ext_eq4(
        &ext,
        'j' as u8,
        'p' as u8,
        'e' as u8,
        'g' as u8,
    ) || ext_eq3(&ext, 'p' as u8, 'n' as u8, 'g' as u8) || ext_eq3(
        &ext,
        't' as u8,
        'i' as u8,
        'f' as u8,
    ) || ext_eq4(&ext, 't' as u8, 'i' as u8, 'f' as u8, 'f' as u8) || ext_eq3(
        &ext,
        't' as u8,
        'g' as u8,
        'a' as u8,
    ) || ext_eq3(&ext, 'b' as u8, 'm' as u8, 'p' as u8);
    if is_tex {
        ResourceClass::TextureFile
    } else if ext_eq3(&ext, 'f' as u8, 'b' as u8, 'x' as u8) {
        ResourceClass::ModelFile
    } else {
        ResourceClass::UnknownFile
    }
}

/// Whether a byte vector holds exactly the three given bytes.
fn ext_eq3(e: &Vec<u8>, a: u8, b: u8, c: u8) -> (r: bool)
    ensures
        r == (e@ == seq![a, b, c]),
{
    let r = e.len() == 3 && e[0] == a && e[1] == b && e[2] == c;
    proof {
        if r {
            assert(e@ =~= seq![a, b, c]);
        }
    }
    r
}

/// Whether a byte vector holds exactly the four given bytes.
fn ext_eq4(e: &Vec<u8>, a: u8, b: u8, c: u8, d: u8) -> (r: bool)
    ensures
        r == (e@ == seq![a, b, c, d]),
{
    let r = e.len() == 4 && e[0] == a && e[1] == b && e[2] == c && e[3] == d;
    proof {
        if r {
            assert(e@ =~= seq![a, b, c, d]);
        }
    }
    r
}

} // verus!
