//! File names, as the bytes the system knows them by.

use vstd::prelude::*;
use vstd::utf8::encode_utf8;

verus! {

/// A file name: any bytes, because a name need not be text.
#[derive(Clone, Debug, PartialEq, Eq)]
pub struct FilePath {
    pub bytes: Vec<u8>,
}

impl View for FilePath {
    type V = Seq<u8>;

    open spec fn view(&self) -> Seq<u8> {
        self.bytes@
    }
}

/// `name`, which is relative, inside the directory `base`.
pub open spec fn under(base: Seq<u8>, name: Seq<u8>) -> Seq<u8> {
    if base.len() == 0 || base.last() == 47 {
        base + name
    } else {
        base.push(47) + name
    }
}

impl FilePath {
    /// `name`, which is relative, inside this directory.
    pub fn join(self, name: &str) -> (path: Self)
        ensures
            path@ == under(self@, encode_utf8(name@)),
    {
        let mut bytes = self.bytes;
        if bytes.len() > 0 && bytes[bytes.len() - 1] != 47 {
            bytes.push(47);
        }
        let mut tail = FilePath::from_text(name);
        bytes.append(&mut tail.bytes);
        FilePath { bytes }
    }

    /// The file a text names.
    pub fn from_text(text: &str) -> (path: Self)
        ensures
            path@ == encode_utf8(text@),
    {
        let source = text.as_bytes();
        let mut bytes: Vec<u8> = Vec::new();
        while bytes.len() < source.len()
            invariant
                source@ == encode_utf8(text@),
                bytes@.len() <= source@.len(),
                bytes@ == source@.take(bytes@.len() as int),
            decreases source.len() - bytes.len(),
        {
            let next = source[bytes.len()];
            assert(source@.take(bytes@.len() as int).push(next) =~= source@.take(
                bytes@.len() as int + 1,
            ));
            bytes.push(next);
        }
        assert(source@.take(source@.len() as int) =~= source@);
        FilePath { bytes }
    }

    /// Whether this is the single dash that stands for standard output.
    pub open spec fn dash(self) -> bool {
        self@ == seq![45u8]
    }

    pub fn is_dash(&self) -> (dash: bool)
        ensures
            dash == self.dash(),
    {
        let dash = self.bytes.len() == 1 && self.bytes[0] == 45;
        assert(dash ==> self@ =~= seq![45u8]);
        dash
    }
}

/// A name in a directory is the directory, a slash unless it ends in one or is
/// empty, and the name.
pub proof fn law_a_name_stands_behind_its_directory(base: Seq<u8>, name: Seq<u8>)
    ensures
        under(Seq::empty(), name) == name,
        under(base.push(47), name) == base + seq![47u8] + name,
        base.len() > 0 && base[base.len() - 1] != 47 ==> under(base, name) == base + seq![47u8]
            + name,
{
    assert(Seq::<u8>::empty() + name =~= name);
    assert(base.push(47) + name =~= base + seq![47u8] + name);
}

} // verus!
