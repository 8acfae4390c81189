use vstd::prelude::*;
use crate::block::Blocks;
use crate::failure::Failure;

verus! {

/// The byte that opens a JSON array.
pub const OPEN: u8 = 0x5b;

/// The byte that closes a JSON array.
pub const CLOSE: u8 = 0x5d;

/// The separator that a producer of concatenated writes leaves around a frame.
pub const COMMA: u8 = 0x2c;

/// How a frame is located inside one chunk read from the feed.
#[derive(Clone, Copy, Debug, PartialEq, Eq, Structural)]
pub enum Framing {
    /// The chunk holds one message: drop null padding, then one comma at
    /// either end.
    Trim,
    /// The chunk may hold several messages or pieces of them: take the last
    /// complete array.
    LastBracket,
}

/// `d` without its run of trailing null bytes.
pub open spec fn trailing_zeroes_trimmed(d: Seq<u8>) -> Seq<u8>
    decreases d.len(),
{
    if d.len() > 0 && d.last() == 0 {
        trailing_zeroes_trimmed(d.drop_last())
    } else {
        d
    }
}

/// `d` without one leading comma and without one trailing comma, where they
/// are present.
pub open spec fn comma_trimmed(d: Seq<u8>) -> Seq<u8> {
    let a = if d.len() > 0 && d[0] == COMMA {
        d.drop_first()
    } else {
        d
    };
    if a.len() > 0 && a.last() == COMMA {
        a.drop_last()
    } else {
        a
    }
}

/// The position of the last byte `c` of `d` that stands before `end`.
pub open spec fn last_index_before(d: Seq<u8>, c: u8, end: int) -> Option<int>
    decreases end,
{
    if end <= 0 {
        None
    } else if d[end - 1] == c {
        Some(end - 1)
    } else {
        last_index_before(d, c, end - 1)
    }
}

/// The bytes from the last `]` of `d` back to the nearest `[` before it,
/// both included.
pub open spec fn last_frame(d: Seq<u8>) -> Option<Seq<u8>> {
    match last_index_before(d, CLOSE, d.len() as int) {
        None => None,
        Some(e) => match last_index_before(d, OPEN, e) {
            None => None,
            Some(s) => Some(d.subrange(s, e + 1)),
        },
    }
}

/// The frame that `framing` locates in the chunk `d`. An empty result of
/// trimming counts as no frame.
pub open spec fn frame_of(framing: Framing, d: Seq<u8>) -> Result<Seq<u8>, Failure> {
    match framing {
        Framing::Trim => {
            let t = comma_trimmed(trailing_zeroes_trimmed(d));
            if t.len() == 0 {
                Err(Failure::FrameNotFound)
            } else {
                Ok(t)
            }
        },
        Framing::LastBracket => match last_frame(d) {
            Some(t) => Ok(t),
            None => Err(Failure::FrameNotFound),
        },
    }
}

/// The last position before `end` at which `data` holds `c`.
fn last_index_of(data: &[u8], c: u8, end: usize) -> (r: Option<usize>)
    requires
        end <= data@.len(),
    ensures
        match r {
            Some(i) => i < end && data@[i as int] == c && last_index_before(data@, c, end as int)
                == Some(i as int),
            None => last_index_before(data@, c, end as int) is None,
        },
{
    let mut k: usize = end;
    while k > 0
        invariant
            k <= end <= data@.len(),
            last_index_before(data@, c, end as int) == last_index_before(data@, c, k as int),
        decreases k,
    {
        if data[k - 1] == c {
            return Some(k - 1);
        }
        k -= 1;
    }
    None
}

impl Blocks {
    /// `data` without the null padding at its end.
    pub fn trim_trailing_zeroes(data: &[u8]) -> (r: &[u8])
        ensures
            r@ == trailing_zeroes_trimmed(data@),
    {
        let mut end: usize = data.len();
        assert(data@.subrange(0, end as int) =~= data@);
        while end > 0 && data[end - 1] == 0
            invariant
                end <= data@.len(),
                trailing_zeroes_trimmed(data@.subrange(0, end as int)) == trailing_zeroes_trimmed(data@),
            decreases end,
        {
            assert(data@.subrange(0, end as int).drop_last() =~= data@.subrange(0, end - 1));
            end -= 1;
        }
        &data[0..end]
    }

    /// `data` without one leading and one trailing comma.
    pub fn trim_comma(data: &[u8]) -> (r: &[u8])
        ensures
            r@ == comma_trimmed(data@),
    {
        let mut start: usize = 0;
        let mut end: usize = data.len();
        if end > 0 && data[0] == COMMA {
            start = 1;
        }
        if end > start && data[end - 1] == COMMA {
            end -= 1;
        }
        proof {
            let a = if data@.len() > 0 && data@[0] == COMMA {
                data@.drop_first()
            } else {
                data@
            };
            assert(a =~= data@.subrange(start as int, data@.len() as int));
            if a.len() > 0 && a.last() == COMMA {
                assert(a.drop_last() =~= data@.subrange(start as int, end as int));
            } else {
                assert(a =~= data@.subrange(start as int, end as int));
            }
        }
        &data[start..end]
    }

    /// The last complete array in `data`: from its last `]` back to the
    /// nearest `[`.
    pub fn get_last_block(data: &[u8]) -> (r: Result<&[u8], Failure>)
        ensures
            match r {
                Ok(t) => last_frame(data@) == Some(t@),
                Err(e) => last_frame(data@) is None && e == Failure::FrameNotFound,
            },
    {
        match last_index_of(data, CLOSE, data.len()) {
            None => Err(Failure::FrameNotFound),
            Some(e) => match last_index_of(data, OPEN, e) {
                None => Err(Failure::FrameNotFound),
                Some(s) => Ok(&data[s..e + 1]),
            },
        }
    }
}

impl Framing {
    /// The frame that this strategy locates in `data`.
    pub fn extract<'a>(&self, data: &'a [u8]) -> (r: Result<&'a [u8], Failure>)
        ensures
            match r {
                Ok(t) => frame_of(*self, data@) == Ok::<Seq<u8>, Failure>(t@),
                Err(e) => frame_of(*self, data@) == Err::<Seq<u8>, Failure>(e),
            },
    {
        match self {
            Framing::Trim => {
                let t = Blocks::trim_comma(Blocks::trim_trailing_zeroes(data));
                if t.len() == 0 {
                    Err(Failure::FrameNotFound)
                } else {
                    Ok(t)
                }
            },
            Framing::LastBracket => Blocks::get_last_block(data),
        }
    }
}

} // verus!
