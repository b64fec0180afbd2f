//! Length-prefixed framing of message fields: each field is written as its
//! length in four big-endian bytes followed by its bytes.
use vstd::prelude::*;

verus! {

/// The four big-endian bytes of `n`.
pub open spec fn be32(n: u32) -> Seq<u8> {
    seq![(n >> 24u32) as u8, (n >> 16u32) as u8, (n >> 8u32) as u8, n as u8]
}

/// The number that four big-endian bytes hold.
pub open spec fn be32_value(b0: u8, b1: u8, b2: u8, b3: u8) -> u32 {
    ((b0 as u32) << 24u32) | ((b1 as u32) << 16u32) | ((b2 as u32) << 8u32) | (b3 as u32)
}

/// Every field is short enough for its length to fit in four bytes.
pub open spec fn fields_fit(fields: Seq<Seq<u8>>) -> bool {
    forall|i: int| 0 <= i < fields.len() ==> #[trigger] fields[i].len() <= u32::MAX
}

/// The framing of a sequence of fields.
pub open spec fn frame_spec(fields: Seq<Seq<u8>>) -> Seq<u8>
    decreases fields.len(),
{
    if fields.len() == 0 {
        Seq::empty()
    } else {
        be32(fields[0].len() as u32) + fields[0] + frame_spec(fields.skip(1))
    }
}

/// The fields that `data` frames, if it is a well-formed framing.
#[verifier::opaque]
pub open spec fn parse_spec(data: Seq<u8>) -> Option<Seq<Seq<u8>>>
    decreases data.len(),
{
    if data.len() == 0 {
        Some(Seq::empty())
    } else if data.len() < 4 {
        None
    } else {
        let n = be32_value(data[0], data[1], data[2], data[3]) as int;
        if data.len() - 4 < n {
            None
        } else {
            match parse_spec(data.skip(4 + n)) {
                Some(rest) => Some(seq![data.subrange(4, 4 + n)] + rest),
                None => None,
            }
        }
    }
}

proof fn lemma_be32_round_trip(n: u32)
    ensures
        be32_value((n >> 24u32) as u8, (n >> 16u32) as u8, (n >> 8u32) as u8, n as u8) == n,
{
    assert(((((n >> 24u32) as u8) as u32) << 24u32) | ((((n >> 16u32) as u8) as u32) << 16u32) | ((
    ((n >> 8u32) as u8) as u32) << 8u32) | ((n as u8) as u32) == n) by (bit_vector);
}

/// Framing the first `i + 1` fields extends the framing of the first `i`.
proof fn lemma_frame_push(fields: Seq<Seq<u8>>, i: int)
    requires
        0 <= i < fields.len(),
    ensures
        frame_spec(fields.take(i + 1)) == frame_spec(fields.take(i)) + be32(fields[i].len() as u32)
            + fields[i],
    decreases i,
{
    if i == 0 {
        assert(fields.take(1).skip(1) =~= Seq::<Seq<u8>>::empty());
        assert(fields.take(0) =~= Seq::<Seq<u8>>::empty());
        assert(frame_spec(fields.take(1)) =~= be32(fields[0].len() as u32) + fields[0]);
        assert(frame_spec(fields.take(0)) =~= Seq::<u8>::empty());
    } else {
        let tail = fields.skip(1);
        lemma_frame_push(tail, i - 1);
        assert(fields.take(i + 1).skip(1) =~= tail.take(i));
        assert(fields.take(i).skip(1) =~= tail.take(i - 1));
        assert(fields.take(i + 1)[0] == fields[0]);
        assert(fields.take(i)[0] == fields[0]);
        assert(tail[i - 1] == fields[i]);
        assert(frame_spec(fields.take(i + 1)) =~= frame_spec(fields.take(i)) + be32(
            fields[i].len() as u32,
        ) + fields[i]);
    }
}

/// A field framed in front of `tail` is read back by one step of the parser.
proof fn lemma_parse_step(f: Seq<u8>, tail: Seq<u8>)
    requires
        f.len() <= u32::MAX,
    ensures
        parse_spec(be32(f.len() as u32) + f + tail) == match parse_spec(tail) {
            Some(rest) => Some(seq![f] + rest),
            None => None,
        },
{
    let n = f.len() as u32;
    let data = be32(n) + f + tail;
    reveal(parse_spec);
    lemma_be32_round_trip(n);
    assert(data[0] == (n >> 24u32) as u8);
    assert(data[1] == (n >> 16u32) as u8);
    assert(data[2] == (n >> 8u32) as u8);
    assert(data[3] == n as u8);
    assert(be32_value(data[0], data[1], data[2], data[3]) as int == f.len());
    assert(data.subrange(4, 4 + f.len() as int) =~= f);
    assert(data.skip(4 + f.len() as int) =~= tail);
}

/// Framing round trip: parsing the framing of fields gives the same fields back.
pub proof fn lemma_parse_frame(fields: Seq<Seq<u8>>)
    requires
        fields_fit(fields),
    ensures
        parse_spec(frame_spec(fields)) == Some(fields),
    decreases fields.len(),
{
    if fields.len() == 0 {
        reveal(parse_spec);
        assert(frame_spec(fields) =~= Seq::<u8>::empty());
    } else {
        let f = fields[0];
        let rest = fields.skip(1);
        assert(fields_fit(rest)) by {
            assert forall|i: int| 0 <= i < rest.len() implies #[trigger] rest[i].len()
                <= u32::MAX by {
                assert(rest[i] == fields[i + 1]);
            }
        }
        assert(f.len() <= u32::MAX);
        lemma_parse_frame(rest);
        lemma_parse_step(f, frame_spec(rest));
        assert(frame_spec(fields) == be32(f.len() as u32) + f + frame_spec(rest));
        assert(seq![f] + rest =~= fields);
    }
}

/// The framing of `fields`.
pub fn encode_fields(fields: &Vec<Vec<u8>>) -> (r: Vec<u8>)
    requires
        fields_fit(fields.deep_view()),
    ensures
        r@ == frame_spec(fields.deep_view()),
{
    let mut out: Vec<u8> = Vec::new();
    let mut i: usize = 0;
    proof {
        assert(fields.deep_view().take(0) =~= Seq::<Seq<u8>>::empty());
        assert(frame_spec(fields.deep_view().take(0)) =~= Seq::<u8>::empty());
    }
    while i < fields.len()
        invariant
            i <= fields.len(),
            fields_fit(fields.deep_view()),
            out@ == frame_spec(fields.deep_view().take(i as int)),
        decreases fields.len() - i,
    {
        let field = &fields[i];
        proof {
            assert(fields.deep_view()[i as int] == field@);
        }
        let n = field.len() as u32;
        out.push((n >> 24u32) as u8);
        out.push((n >> 16u32) as u8);
        out.push((n >> 8u32) as u8);
        out.push(n as u8);
        let mut j: usize = 0;
        let ghost start = out@;
        while j < field.len()
            invariant
                j <= field.len(),
                out@ == start + field@.take(j as int),
            decreases field.len() - j,
        {
            out.push(field[j]);
            proof {
                assert(field@.take(j + 1) =~= field@.take(j as int).push(field@[j as int]));
            }
            j = j + 1;
        }
        proof {
            assert(field@.take(j as int) =~= field@);
            lemma_frame_push(fields.deep_view(), i as int);
            assert(start =~= frame_spec(fields.deep_view().take(i as int)) + be32(n));
        }
        i = i + 1;
    }
    proof {
        assert(fields.deep_view().take(i as int) =~= fields.deep_view());
    }
    out
}

/// The fields that `data` frames, or `None` if it is not a well-formed framing.
pub fn decode_fields(data: &[u8]) -> (r: Option<Vec<Vec<u8>>>)
    ensures
        match r {
            Some(fields) => parse_spec(data@) == Some(fields.deep_view()),
            None => parse_spec(data@) is None,
        },
{
    let mut fields: Vec<Vec<u8>> = Vec::new();
    let mut pos: usize = 0;
    proof {
        reveal(parse_spec);
        assert(data@.skip(0) =~= data@);
        match parse_spec(data@) {
            Some(all) => assert(fields.deep_view() + all =~= all),
            None => {},
        }
    }
    while pos < data.len()
        invariant
            pos <= data@.len(),
            parse_spec(data@) == match parse_spec(data@.skip(pos as int)) {
                Some(rest) => Some(fields.deep_view() + rest),
                None => None,
            },
        decreases data@.len() - pos,
    {
        let ghost rest = data@.skip(pos as int);
        proof {
            reveal(parse_spec);
        }
        if data.len() - pos < 4 {
            return None;
        }
        let n = be32_exec(data[pos], data[pos + 1], data[pos + 2], data[pos + 3]);
        proof {
            assert(rest[0] == data@[pos as int] && rest[1] == data@[pos + 1]);
            assert(rest[2] == data@[pos + 2] && rest[3] == data@[pos + 3]);
        }
        if data.len() - pos - 4 < n as usize {
            return None;
        }
        let start = pos + 4;
        let end = start + n as usize;
        let mut field: Vec<u8> = Vec::new();
        let mut j: usize = start;
        while j < end
            invariant
                start <= j <= end,
                end <= data@.len(),
                field@ == data@.subrange(start as int, j as int),
            decreases end - j,
        {
            field.push(data[j]);
            proof {
                assert(data@.subrange(start as int, j + 1) =~= data@.subrange(
                    start as int,
                    j as int,
                ).push(data@[j as int]));
            }
            j = j + 1;
        }
        let ghost before = fields.deep_view();
        let ghost old_fields = fields;
        proof {
            assert(rest.subrange(4, 4 + n as int) =~= field@);
            assert(rest.skip(4 + n as int) =~= data@.skip(end as int));
            match parse_spec(data@.skip(end as int)) {
                Some(tail) => {
                    assert(before.push(field@) + tail =~= before + (seq![field@] + tail));
                },
                None => {},
            }
        }
        let ghost field_view = field@;
        fields.push(field);
        proof {
            assert forall|i: int| 0 <= i < fields.deep_view().len() implies #[trigger] fields.deep_view()[i]
                == before.push(field_view)[i] by {
                if i < before.len() {
                    assert(fields@[i] == old_fields@[i]);
                }
            }
            assert(fields.deep_view() =~= before.push(field_view));
        }
        pos = end;
    }
    proof {
        reveal(parse_spec);
        assert(data@.skip(pos as int) =~= Seq::<u8>::empty());
        assert(fields.deep_view() + Seq::<Seq<u8>>::empty() =~= fields.deep_view());
    }
    Some(fields)
}

fn be32_exec(b0: u8, b1: u8, b2: u8, b3: u8) -> (r: u32)
    ensures
        r == be32_value(b0, b1, b2, b3),
{
    ((b0 as u32) << 24u32) | ((b1 as u32) << 16u32) | ((b2 as u32) << 8u32) | (b3 as u32)
}

} // verus!
