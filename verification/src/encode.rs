//! The command encoder: a fixed container header followed by one
//! serialized record per command, in order.

use vstd::prelude::*;

use crate::commands::FlanSeqCommand;

verus! {

/// The fixed 20-byte container header: the magic `"FDSS"`, then four
/// little-endian `u32` fields — section count (fixed to 1), section-table
/// offset (0), section-data offset (4), and the first section's start
/// offset (0). The values are constants for this version of the format;
/// they reserve room for multi-section extension.
pub open spec fn spec_header() -> Seq<u8> {
    seq![
        0x46u8,
        0x44u8,
        0x53u8,
        0x53u8,
        1u8,
        0u8,
        0u8,
        0u8,
        0u8,
        0u8,
        0u8,
        0u8,
        4u8,
        0u8,
        0u8,
        0u8,
        0u8,
        0u8,
        0u8,
        0u8,
    ]
}

/// The concatenation of every command's serialized record, in order.
pub open spec fn serialize_all(cmds: Seq<FlanSeqCommand>) -> Seq<u8>
    decreases cmds.len(),
{
    if cmds.len() == 0 {
        Seq::empty()
    } else {
        cmds[0].spec_serialize() + serialize_all(cmds.drop_first())
    }
}

/// The whole output buffer for a command sequence.
pub open spec fn spec_encode(cmds: Seq<FlanSeqCommand>) -> Seq<u8> {
    spec_header() + serialize_all(cmds)
}

proof fn lemma_serialize_all_snoc(s: Seq<FlanSeqCommand>, x: FlanSeqCommand)
    ensures
        serialize_all(s.push(x)) == serialize_all(s) + x.spec_serialize(),
    decreases s.len(),
{
    if s.len() == 0 {
        assert(s.push(x)[0] == x);
        assert(s.push(x).drop_first() =~= Seq::<FlanSeqCommand>::empty());
        assert(serialize_all(s.push(x)) == x.spec_serialize() + serialize_all(
            Seq::<FlanSeqCommand>::empty(),
        ));
        assert(serialize_all(s.push(x)) =~= serialize_all(s) + x.spec_serialize());
    } else {
        assert(s.push(x).drop_first() =~= s.drop_first().push(x));
        assert(s.push(x)[0] == s[0]);
        lemma_serialize_all_snoc(s.drop_first(), x);
        assert(serialize_all(s.push(x)) == s[0].spec_serialize() + (serialize_all(s.drop_first())
            + x.spec_serialize()));
        assert(serialize_all(s.push(x)) =~= (s[0].spec_serialize() + serialize_all(
            s.drop_first(),
        )) + x.spec_serialize());
    }
}

/// Encode the ordered command sequence: emit the fixed header, then append
/// each command's serialized record in order.
pub fn encode(commands: Vec<FlanSeqCommand>) -> (r: Vec<u8>)
    requires
        forall|k: int| 0 <= k < commands@.len() ==> (#[trigger] commands@[k]).wf(),
    ensures
        r@ == spec_encode(commands@),
{
    let mut out: Vec<u8> = Vec::new();
    out.push(0x46);
    out.push(0x44);
    out.push(0x53);
    out.push(0x53);
    out.push(1);
    out.push(0);
    out.push(0);
    out.push(0);
    out.push(0);
    out.push(0);
    out.push(0);
    out.push(0);
    out.push(4);
    out.push(0);
    out.push(0);
    out.push(0);
    out.push(0);
    out.push(0);
    out.push(0);
    out.push(0);
    proof {
        assert(out@ =~= spec_header());
        assert(commands@.take(0) =~= Seq::<FlanSeqCommand>::empty());
        assert(out@ =~= spec_header() + serialize_all(commands@.take(0)));
    }
    let n = commands.len();
    for i in 0..n
        invariant
            n == commands@.len(),
            forall|k: int| 0 <= k < commands@.len() ==> (#[trigger] commands@[k]).wf(),
            out@ == spec_header() + serialize_all(commands@.take(i as int)),
    {
        let c = commands[i];
        let mut bytes = c.serialize();
        out.append(&mut bytes);
        proof {
            assert(commands@.take(i as int + 1) =~= commands@.take(i as int).push(
                commands@[i as int],
            ));
            lemma_serialize_all_snoc(commands@.take(i as int), commands@[i as int]);
            assert(out@ =~= spec_header() + serialize_all(commands@.take(i as int + 1)));
        }
    }
    proof {
        assert(commands@.take(n as int) =~= commands@);
    }
    out
}

} // verus!
