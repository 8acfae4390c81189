use vstd::prelude::*;
use crate::block::{Block, BlockView, Blocks};
use crate::failure::Failure;
use crate::frame::{frame_of, Framing};

verus! {

#[verifier::external_type_specification]
#[verifier::external_body]
pub struct ExJsonError(serde_json::Error);

/// A member of a decoded JSON object: its key, and its text where its value
/// is a JSON string.
pub struct Member {
    pub key: String,
    pub text: Option<String>,
}

/// A member as plain values.
pub type MemberView = (Seq<char>, Option<Seq<char>>);

impl View for Member {
    type V = MemberView;

    open spec fn view(&self) -> MemberView {
        (self.key@, match self.text {
            Some(t) => Some(t@),
            None => None,
        })
    }
}

/// Decoded objects as plain values.
pub open spec fn objects_view(objs: Seq<Vec<Member>>) -> Seq<Seq<MemberView>> {
    objs.map_values(|o: Vec<Member>| o@.map_values(|m: Member| m@))
}

/// serde_json's reading of `frame` as a JSON array of JSON objects: each
/// object's members in the order of their keys, or `None` where the bytes
/// are no such array.
pub uninterp spec fn json_objects(frame: Seq<u8>) -> Option<Seq<Seq<MemberView>>>;

/// Relies on serde_json::from_slice, into a `Vec` of `BTreeMap<String, Value>`,
/// to decide whether `frame` is a JSON array of objects and to read their
/// members, and on serde_json::Value::as_str to tell string members apart.
#[verifier::external_body]
fn parse_objects(frame: &[u8]) -> (r: Result<Vec<Vec<Member>>, serde_json::Error>)
    ensures
        match r {
            Ok(objs) => json_objects(frame@) == Some(objects_view(objs@)),
            Err(_) => json_objects(frame@) is None,
        },
{
    let parsed: Vec<std::collections::BTreeMap<String, serde_json::Value>> =
        serde_json::from_slice(frame)?;
    Ok(parsed.into_iter().map(|o| o.into_iter().map(|(key, v)| Member {
        key,
        text: v.as_str().map(String::from),
    }).collect()).collect())
}

/// The text of the first member of `o` whose key is `key`, if that member is
/// a string.
pub open spec fn member_text(o: Seq<MemberView>, key: Seq<char>) -> Option<Seq<char>>
    decreases o.len(),
{
    if o.len() == 0 {
        None
    } else if o[0].0 == key {
        o[0].1
    } else {
        member_text(o.drop_first(), key)
    }
}

/// The block that a decoded object stands for: it needs a string `full_text`
/// and a string `color`; other members are ignored.
pub open spec fn block_of(o: Seq<MemberView>) -> Option<BlockView> {
    match (member_text(o, "full_text"@), member_text(o, "color"@)) {
        (Some(t), Some(c)) => Some((t, c)),
        _ => None,
    }
}

/// The blocks that decoded objects stand for, if every one of them is a block.
pub open spec fn blocks_of(objs: Seq<Seq<MemberView>>) -> Option<Seq<BlockView>> {
    if forall|i: int| 0 <= i < objs.len() ==> (#[trigger] block_of(objs[i])) is Some {
        Some(objs.map_values(|o: Seq<MemberView>| block_of(o)->0))
    } else {
        None
    }
}

/// What a frame decodes to.
pub open spec fn decoded(frame: Seq<u8>) -> Result<Seq<BlockView>, Failure> {
    match json_objects(frame) {
        None => Err(Failure::InvalidJson),
        Some(objs) => match blocks_of(objs) {
            Some(bs) => Ok(bs),
            None => Err(Failure::MissingField),
        },
    }
}

/// What a chunk read from the feed yields: its frame, decoded.
pub open spec fn read_chunk(framing: Framing, d: Seq<u8>) -> Result<Seq<BlockView>, Failure> {
    match frame_of(framing, d) {
        Err(e) => Err(e),
        Ok(t) => decoded(t),
    }
}

/// The text of the member of `o` keyed `key`, as `member_text` gives it.
fn find_member_text(o: &Vec<Member>, key: &String) -> (r: Option<String>)
    ensures
        match r {
            Some(t) => member_text(o@.map_values(|m: Member| m@), key@) == Some(t@),
            None => member_text(o@.map_values(|m: Member| m@), key@) is None,
        },
{
    let ghost mv = o@.map_values(|m: Member| m@);
    let mut i: usize = 0;
    assert(mv.subrange(0, mv.len() as int) =~= mv);
    while i < o.len()
        invariant
            i <= o@.len(),
            mv == o@.map_values(|m: Member| m@),
            member_text(mv, key@) == member_text(mv.subrange(i as int, mv.len() as int), key@),
        decreases o@.len() - i,
    {
        let m = &o[i];
        let ghost rest = mv.subrange(i as int, mv.len() as int);
        assert(rest[0] == m@);
        if m.key == *key {
            return match &m.text {
                Some(t) => Some(t.clone()),
                None => None,
            };
        }
        assert(rest.drop_first() =~= mv.subrange(i + 1, mv.len() as int));
        i += 1;
    }
    None
}

/// The block that one decoded object stands for, as `block_of` gives it.
pub fn block_from_members(o: &Vec<Member>) -> (r: Option<Block>)
    ensures
        match r {
            Some(b) => block_of(o@.map_values(|m: Member| m@)) == Some(b@),
            None => block_of(o@.map_values(|m: Member| m@)) is None,
        },
{
    let text_key = String::from_str("full_text");
    let color_key = String::from_str("color");
    match find_member_text(o, &text_key) {
        None => None,
        Some(full_text) => match find_member_text(o, &color_key) {
            None => None,
            Some(color) => Some(Block { full_text, color }),
        },
    }
}

/// The blocks that decoded objects stand for, in order; `MissingField` where
/// one of them is not a block.
pub fn blocks_from_objects(objs: &Vec<Vec<Member>>) -> (r: Result<Blocks, Failure>)
    ensures
        match r {
            Ok(bs) => blocks_of(objects_view(objs@)) == Some(bs@),
            Err(e) => blocks_of(objects_view(objs@)) is None && e == Failure::MissingField,
        },
{
    let ghost ov = objects_view(objs@);
    let mut out: Vec<Block> = Vec::new();
    let mut i: usize = 0;
    while i < objs.len()
        invariant
            i <= objs@.len(),
            ov == objects_view(objs@),
            out@.len() == i,
            forall|j: int| 0 <= j < i ==> (#[trigger] block_of(ov[j])) == Some(out@[j]@),
        decreases objs@.len() - i,
    {
        assert(ov[i as int] == objs@[i as int]@.map_values(|m: Member| m@));
        match block_from_members(&objs[i]) {
            None => {
                assert(block_of(ov[i as int]) is None);
                return Err(Failure::MissingField);
            },
            Some(b) => {
                out.push(b);
            },
        }
        i += 1;
    }
    let r = Blocks(out);
    assert(r@ =~= ov.map_values(|o: Seq<MemberView>| block_of(o)->0));
    Ok(r)
}

impl Blocks {
    /// Decodes one frame: a JSON array of objects, each with a string
    /// `full_text` and a string `color`.
    pub fn decode_frame(frame: &[u8]) -> (r: Result<Blocks, Failure>)
        ensures
            match r {
                Ok(bs) => decoded(frame@) == Ok::<Seq<BlockView>, Failure>(bs@),
                Err(e) => decoded(frame@) == Err::<Seq<BlockView>, Failure>(e),
            },
    {
        match parse_objects(frame) {
            Err(_) => Err(Failure::InvalidJson),
            Ok(objs) => blocks_from_objects(&objs),
        }
    }

    /// Locates a frame in `data` as `framing` does, and decodes it.
    pub fn from_chunk(framing: Framing, data: &[u8]) -> (r: Result<Blocks, Failure>)
        ensures
            match r {
                Ok(bs) => read_chunk(framing, data@) == Ok::<Seq<BlockView>, Failure>(bs@),
                Err(e) => read_chunk(framing, data@) == Err::<Seq<BlockView>, Failure>(e),
            },
    {
        match framing.extract(data) {
            Err(e) => Err(e),
            Ok(frame) => Blocks::decode_frame(frame),
        }
    }

    /// Decodes the last complete array in `data`, which may hold padding,
    /// stray separators, or earlier messages.
    pub fn from_json(data: &[u8]) -> (r: Result<Blocks, Failure>)
        ensures
            match r {
                Ok(bs) => read_chunk(Framing::LastBracket, data@) == Ok::<Seq<BlockView>, Failure>(bs@),
                Err(e) => read_chunk(Framing::LastBracket, data@) == Err::<Seq<BlockView>, Failure>(e),
            },
    {
        Blocks::from_chunk(Framing::LastBracket, data)
    }
}

} // verus!
