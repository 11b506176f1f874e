//! An MD5 digest record of the asset registry: a flag word, then the digest where the
//! flag is set.
use vstd::prelude::*;

use crate::archive::{le_bytes_u32, lemma_u32_at, lemma_u32_bytes_round_trip, u32_at, write_u32, Reader};
use crate::error::Error;
use crate::exports::view_outcome;

verus! {

/// An MD5 digest that may be absent: a flag word, then sixteen bytes where it is not zero.
/// The flag word is kept as it was read, so that the record is written back unchanged.
/// The flag word and the digest always agree: a digest exactly where the flag is not zero.
#[derive(Debug, Clone, Copy)]
pub struct FMD5Hash {
    has_hash: u32,
    hash: Option<[u8; 16]>,
}

impl View for FMD5Hash {
    type V = (u32, Option<Seq<u8>>);

    closed spec fn view(&self) -> (u32, Option<Seq<u8>>) {
        (
            self.has_hash,
            match self.hash {
                Some(h) => Some(h@),
                None => None,
            },
        )
    }
}

/// A record as decoding gives it: a digest exactly where the flag word is not zero.
pub open spec fn md5_wf(m: (u32, Option<Seq<u8>>)) -> bool {
    &&& (m.0 == 0 <==> m.1 is None)
    &&& (m.1 matches Some(d) ==> d.len() == 16)
}

pub open spec fn parse_md5(s: Seq<u8>, at: int) -> Result<((u32, Option<Seq<u8>>), int), Error> {
    if at + 4 > s.len() {
        Err(Error::UnexpectedEof { offset: at as usize })
    } else if u32_at(s, at) == 0 {
        Ok(((0, None), at + 4))
    } else if at + 20 > s.len() {
        Err(Error::UnexpectedEof { offset: (at + 4) as usize })
    } else {
        Ok(((u32_at(s, at), Some(s.subrange(at + 4, at + 20))), at + 20))
    }
}

pub open spec fn md5_bytes(m: (u32, Option<Seq<u8>>)) -> Seq<u8> {
    le_bytes_u32(m.0) + match m.1 {
        Some(h) => h,
        None => Seq::empty(),
    }
}

impl FMD5Hash {
    #[verifier::type_invariant]
    closed spec fn flag_agrees(self) -> bool {
        md5_wf(self@)
    }

    /// A record holding `hash`, with flag word one where there is a digest and zero where
    /// there is none.
    pub fn from_hash(hash: Option<[u8; 16]>) -> (r: FMD5Hash)
        ensures
            r@ == (
                if hash is Some {
                    1u32
                } else {
                    0u32
                },
                match hash {
                    Some(h) => Some(h@),
                    None => None,
                },
            ),
    {
        let has_hash: u32 = if hash.is_some() {
            1
        } else {
            0
        };
        FMD5Hash { has_hash, hash }
    }

    /// The flag word, as it was read.
    pub fn has_hash(&self) -> (r: u32)
        ensures
            r == self@.0,
    {
        self.has_hash
    }

    /// The digest, where the flag word is not zero.
    pub fn hash(&self) -> (r: Option<[u8; 16]>)
        ensures
            match r {
                Some(h) => self@.1 == Some(h@),
                None => self@.1 is None,
            },
    {
        self.hash
    }

    /// Reads a digest.
    pub fn new(reader: &mut Reader) -> (r: Result<FMD5Hash, Error>)
        requires
            old(reader).wf(),
        ensures
            final(reader).wf(),
            final(reader).data == old(reader).data,
            view_outcome(r, final(reader).pos) == parse_md5(old(reader).data@, old(reader).pos as int),
            r matches Ok(h) ==> md5_wf(h@),
    {
        let has_hash = match reader.read_u32() {
            Ok(v) => v,
            Err(e) => return Err(e),
        };
        if has_hash == 0 {
            return Ok(FMD5Hash { has_hash, hash: None });
        }
        let bytes = match reader.read_bytes(16) {
            Ok(b) => b,
            Err(e) => return Err(e),
        };
        let mut hash = [0u8; 16];
        let mut i: usize = 0;
        while i < 16
            invariant
                i <= 16,
                bytes@.len() == 16,
                forall|j: int| 0 <= j < i ==> hash@[j] == bytes@[j],
            decreases 16 - i,
        {
            hash[i] = bytes[i];
            i = i + 1;
        }
        assert(hash@ =~= bytes@);
        assert(hash@.len() == 16);
        Ok(FMD5Hash { has_hash, hash: Some(hash) })
    }

    /// Writes the flag word as it was read, then the digest where there is one. Reading the
    /// written bytes back gives the same record.
    pub fn write(&self, out: &mut Vec<u8>)
        ensures
            final(out)@ == old(out)@ + md5_bytes(self@),
            md5_wf(self@),
            parse_md5(md5_bytes(self@), 0) == Ok::<((u32, Option<Seq<u8>>), int), Error>(
                (self@, md5_bytes(self@).len() as int),
            ),
    {
        proof {
            use_type_invariant(self);
            lemma_md5_round_trip(self@);
        }
        let ghost before = out@;
        write_u32(out, self.has_hash);
        match &self.hash {
            Some(hash) => {
                let mut i: usize = 0;
                while i < 16
                    invariant
                        i <= 16,
                        out@ == before + le_bytes_u32(self.has_hash) + hash@.subrange(0, i as int),
                    decreases 16 - i,
                {
                    out.push(hash[i]);
                    i = i + 1;
                    assert(out@ =~= before + le_bytes_u32(self.has_hash) + hash@.subrange(
                        0,
                        i as int,
                    ));
                }
                assert(hash@.subrange(0, 16) =~= hash@);
            },
            None => {},
        }
        assert(out@ =~= before + md5_bytes(self@));
    }
}

/// Writing a record that decoding can give and reading the bytes back gives the same record.
pub proof fn lemma_md5_round_trip(m: (u32, Option<Seq<u8>>))
    requires
        md5_wf(m),
    ensures
        parse_md5(md5_bytes(m), 0) == Ok::<((u32, Option<Seq<u8>>), int), Error>(
            (m, md5_bytes(m).len() as int),
        ),
{
    let b = md5_bytes(m);
    assert(b.subrange(0, 4) =~= le_bytes_u32(m.0));
    lemma_u32_at(b, 0, m.0);
    if let Some(d) = m.1 {
        assert(b.subrange(4, 20) =~= d);
    }
}

/// Writing a decoded record gives back exactly the bytes it was read from.
pub proof fn lemma_decoded_md5_bytes(s: Seq<u8>, at: int)
    requires
        0 <= at,
    ensures
        parse_md5(s, at) matches Ok((m, p)) ==> md5_wf(m) && md5_bytes(m) == s.subrange(at, p),
{
    if let Ok((m, p)) = parse_md5(s, at) {
        lemma_u32_bytes_round_trip(s, at);
        assert(md5_bytes(m) =~= s.subrange(at, p));
    }
}

} // verus!
