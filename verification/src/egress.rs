//! The way out as mathematics: messages become fragments, fragments become
//! datagrams, each under the next sequence number.

use vstd::prelude::*;
use crate::crypto::cipher::message_len_bound;
use crate::crypto::direction::Direction;
use crate::crypto::error::CryptoError;
use crate::crypto::session::{opened, sealed_packet, CryptoView};
use crate::transport::fragment::{
    chunk,
    chunk_count,
    fragment_at,
    fragment_bytes,
    fragments_of,
    lemma_chunk_count,
    next_id,
    FragmentView,
    FragmenterView,
};

verus! {

/// The packet session and the datagrams after a run of fragments was
/// sealed towards the server, one by one. The first fragment that the
/// cipher cannot take ends the run with `EncryptionFailed`; the session
/// then stands where it stood before that fragment.
pub open spec fn sealed_run(
    crypto: CryptoView,
    timestamp: u16,
    timestamp_reply: u16,
    frags: Seq<FragmentView>,
) -> (CryptoView, Result<Seq<Seq<u8>>, CryptoError>)
    decreases frags.len(),
{
    if frags.len() == 0 {
        (crypto, Ok(Seq::empty()))
    } else {
        let (before, packets) = sealed_run(crypto, timestamp, timestamp_reply, frags.drop_last());
        match packets {
            Err(e) => (before, Err(e)),
            Ok(packets) => {
                let bytes = fragment_bytes(frags.last());
                if bytes.len() + 12 >= message_len_bound() {
                    (before, Err(CryptoError::EncryptionFailed))
                } else {
                    (
                        CryptoView { send_seq: next_id(before.send_seq), ..before },
                        Ok(
                            packets.push(
                                sealed_packet(
                                    before.key,
                                    Direction::ToServer.tag(before.send_seq),
                                    timestamp,
                                    timestamp_reply,
                                    bytes,
                                ),
                            ),
                        ),
                    )
                }
            },
        }
    }
}

/// The packet session, the fragmenter and the datagrams after a list of
/// messages was sent, one by one. A message whose fragments do not all
/// seal ends the list with the error.
pub open spec fn sent_all(
    crypto: CryptoView,
    fragmenter: FragmenterView,
    timestamp: u16,
    timestamp_reply: u16,
    messages: Seq<Seq<u8>>,
) -> (CryptoView, FragmenterView, Result<Seq<Seq<u8>>, CryptoError>)
    decreases messages.len(),
{
    if messages.len() == 0 {
        (crypto, fragmenter, Ok(Seq::empty()))
    } else {
        let (c1, f1, packets) = sent_all(
            crypto,
            fragmenter,
            timestamp,
            timestamp_reply,
            messages.drop_last(),
        );
        match packets {
            Err(e) => (c1, f1, Err(e)),
            Ok(packets) => {
                let frags = fragments_of(f1.next_instruction_id, messages.last(), f1.mtu);
                let f2 = FragmenterView {
                    next_instruction_id: next_id(f1.next_instruction_id),
                    ..f1
                };
                let (c2, more) = sealed_run(c1, timestamp, timestamp_reply, frags);
                match more {
                    Err(e) => (c2, f2, Err(e)),
                    Ok(more) => (c2, f2, Ok(packets + more)),
                }
            },
        }
    }
}

/// A run that failed stays failed, and the session stays where it stood,
/// however many fragments follow.
pub proof fn lemma_sealed_run_stuck(
    crypto: CryptoView,
    timestamp: u16,
    timestamp_reply: u16,
    frags: Seq<FragmentView>,
    n: int,
)
    requires
        0 <= n <= frags.len(),
        sealed_run(crypto, timestamp, timestamp_reply, frags.take(n)).1 is Err,
    ensures
        sealed_run(crypto, timestamp, timestamp_reply, frags) == sealed_run(
            crypto,
            timestamp,
            timestamp_reply,
            frags.take(n),
        ),
    decreases frags.len() - n,
{
    if n == frags.len() {
        assert(frags.take(n) =~= frags);
    } else {
        assert(frags.take(n + 1).drop_last() =~= frags.take(n));
        lemma_sealed_run_stuck(crypto, timestamp, timestamp_reply, frags, n + 1);
    }
}

/// A list that failed stays failed, with the session and the fragmenter
/// where they stood, however many messages follow.
pub proof fn lemma_sent_all_stuck(
    crypto: CryptoView,
    fragmenter: FragmenterView,
    timestamp: u16,
    timestamp_reply: u16,
    messages: Seq<Seq<u8>>,
    n: int,
)
    requires
        0 <= n <= messages.len(),
        sent_all(crypto, fragmenter, timestamp, timestamp_reply, messages.take(n)).2 is Err,
    ensures
        sent_all(crypto, fragmenter, timestamp, timestamp_reply, messages) == sent_all(
            crypto,
            fragmenter,
            timestamp,
            timestamp_reply,
            messages.take(n),
        ),
    decreases messages.len() - n,
{
    if n == messages.len() {
        assert(messages.take(n) =~= messages);
    } else {
        assert(messages.take(n + 1).drop_last() =~= messages.take(n));
        lemma_sent_all_stuck(crypto, fragmenter, timestamp, timestamp_reply, messages, n + 1);
    }
}

/// What one more fragment makes of a run that went well so far.
pub proof fn lemma_sealed_run_step(
    crypto: CryptoView,
    timestamp: u16,
    timestamp_reply: u16,
    frags: Seq<FragmentView>,
    i: int,
)
    requires
        0 <= i < frags.len(),
        sealed_run(crypto, timestamp, timestamp_reply, frags.take(i)).1 is Ok,
    ensures
        ({
            let (before, packets) = sealed_run(crypto, timestamp, timestamp_reply, frags.take(i));
            let bytes = fragment_bytes(frags[i]);
            sealed_run(crypto, timestamp, timestamp_reply, frags.take(i + 1)) == if bytes.len()
                + 12 >= message_len_bound() {
                (before, Err::<Seq<Seq<u8>>, CryptoError>(CryptoError::EncryptionFailed))
            } else {
                (
                    CryptoView { send_seq: next_id(before.send_seq), ..before },
                    Ok::<Seq<Seq<u8>>, CryptoError>(
                        packets->Ok_0.push(
                            sealed_packet(
                                before.key,
                                Direction::ToServer.tag(before.send_seq),
                                timestamp,
                                timestamp_reply,
                                bytes,
                            ),
                        ),
                    ),
                )
            }
        }),
{
    assert(frags.take(i + 1).drop_last() =~= frags.take(i));
    assert(frags.take(i + 1).last() == frags[i]);
}

/// What one more message makes of a list that went well so far.
pub proof fn lemma_sent_all_step(
    crypto: CryptoView,
    fragmenter: FragmenterView,
    timestamp: u16,
    timestamp_reply: u16,
    messages: Seq<Seq<u8>>,
    i: int,
)
    requires
        0 <= i < messages.len(),
        sent_all(crypto, fragmenter, timestamp, timestamp_reply, messages.take(i)).2 is Ok,
    ensures
        ({
            let (c1, f1, packets) = sent_all(
                crypto,
                fragmenter,
                timestamp,
                timestamp_reply,
                messages.take(i),
            );
            let f2 = FragmenterView {
                next_instruction_id: next_id(f1.next_instruction_id),
                ..f1
            };
            let (c2, more) = sealed_run(
                c1,
                timestamp,
                timestamp_reply,
                fragments_of(f1.next_instruction_id, messages[i], f1.mtu),
            );
            &&& f1.mtu == fragmenter.mtu
            &&& sent_all(crypto, fragmenter, timestamp, timestamp_reply, messages.take(i + 1))
                == match more {
                Err(e) => (c2, f2, Err::<Seq<Seq<u8>>, CryptoError>(e)),
                Ok(more) => (c2, f2, Ok::<Seq<Seq<u8>>, CryptoError>(packets->Ok_0 + more)),
            }
        }),
{
    assert(messages.take(i + 1).drop_last() =~= messages.take(i));
    assert(messages.take(i + 1).last() == messages[i]);
    lemma_mtu_stays(crypto, fragmenter, timestamp, timestamp_reply, messages.take(i));
}

/// Sending never changes the size of the fragments.
pub proof fn lemma_mtu_stays(
    crypto: CryptoView,
    fragmenter: FragmenterView,
    timestamp: u16,
    timestamp_reply: u16,
    messages: Seq<Seq<u8>>,
)
    ensures
        sent_all(crypto, fragmenter, timestamp, timestamp_reply, messages).1.mtu
            == fragmenter.mtu,
    decreases messages.len(),
{
    if messages.len() > 0 {
        lemma_mtu_stays(crypto, fragmenter, timestamp, timestamp_reply, messages.drop_last());
    }
}

/// The fragmenter after it split `n` messages.
pub open spec fn fragmenter_after(fragmenter: FragmenterView, n: nat) -> FragmenterView
    decreases n,
{
    if n == 0 {
        fragmenter
    } else {
        let before = fragmenter_after(fragmenter, (n - 1) as nat);
        FragmenterView { next_instruction_id: next_id(before.next_instruction_id), ..before }
    }
}

/// The fragments of a list of messages, message after message, each under
/// the identifier that it gets.
pub open spec fn fragments_of_all(fragmenter: FragmenterView, messages: Seq<Seq<u8>>) -> Seq<
    FragmentView,
>
    decreases messages.len(),
{
    if messages.len() == 0 {
        Seq::empty()
    } else {
        let before = messages.drop_last();
        fragments_of_all(fragmenter, before) + fragments_of(
            fragmenter_after(fragmenter, before.len()).next_instruction_id,
            messages.last(),
            fragmenter.mtu,
        )
    }
}

/// Whether a datagram is that of a fragment: 36 bytes longer than the bytes
/// of the fragment (nonce tail 8, header 12, tag 16), and opening under
/// `key` to these bytes.
pub open spec fn carries(key: Seq<u8>, packet: Seq<u8>, f: FragmentView) -> bool {
    &&& packet.len() == fragment_bytes(f).len() + 36
    &&& opened(key, packet) matches Ok(p) && p.payload == fragment_bytes(f)
}

/// The datagram of a fragment is 46 bytes longer than the fragment's
/// payload: at least 46 bytes, at most 46 and the fragment size, and
/// exactly that for every fragment of a message but the last.
pub proof fn lemma_datagram_length(
    key: Seq<u8>,
    packet: Seq<u8>,
    id: u64,
    message: Seq<u8>,
    mtu: nat,
    i: int,
)
    requires
        mtu > 0,
        0 <= i < chunk_count(message.len(), mtu),
        carries(key, packet, fragment_at(id, message, mtu, i)),
    ensures
        packet.len() == 46 + chunk(message, mtu, i).len(),
        46 <= packet.len() <= 46 + mtu,
        i + 1 < chunk_count(message.len(), mtu) ==> packet.len() == 46 + mtu,
{
    assert(i * mtu >= 0) by (nonlinear_arith)
        requires
            i >= 0,
            mtu > 0,
    ;
    if message.len() > 0 {
        lemma_chunk_count(message.len(), mtu, i as nat);
    } else {
        assert(i * mtu == 0) by (nonlinear_arith)
            requires
                i == 0,
        ;
    }
}

/// Whether each of the datagrams is that of the fragment at its place.
pub open spec fn all_carry(key: Seq<u8>, packets: Seq<Seq<u8>>, frags: Seq<FragmentView>) -> bool {
    &&& packets.len() == frags.len()
    &&& forall|i: int| 0 <= i < packets.len() ==> carries(key, #[trigger] packets[i], frags[i])
}

/// A list of messages that went out well leaves the fragmenter one
/// identifier further for each, and the key as it was.
pub proof fn lemma_sent_all_fragmenter(
    crypto: CryptoView,
    fragmenter: FragmenterView,
    timestamp: u16,
    timestamp_reply: u16,
    messages: Seq<Seq<u8>>,
)
    requires
        sent_all(crypto, fragmenter, timestamp, timestamp_reply, messages).2 is Ok,
    ensures
        sent_all(crypto, fragmenter, timestamp, timestamp_reply, messages).1 == fragmenter_after(
            fragmenter,
            messages.len(),
        ),
    decreases messages.len(),
{
    if messages.len() > 0 {
        lemma_sent_all_fragmenter(
            crypto,
            fragmenter,
            timestamp,
            timestamp_reply,
            messages.drop_last(),
        );
    }
}

/// Datagrams that carry the fragments of some messages, followed by
/// datagrams that carry those of the next message, carry the fragments of
/// all.
pub proof fn lemma_all_carry_more(
    key: Seq<u8>,
    fragmenter: FragmenterView,
    messages: Seq<Seq<u8>>,
    i: int,
    packets: Seq<Seq<u8>>,
    more: Seq<Seq<u8>>,
)
    requires
        0 <= i < messages.len(),
        all_carry(key, packets, fragments_of_all(fragmenter, messages.take(i))),
        all_carry(
            key,
            more,
            fragments_of(
                fragmenter_after(fragmenter, i as nat).next_instruction_id,
                messages[i],
                fragmenter.mtu,
            ),
        ),
    ensures
        all_carry(key, packets + more, fragments_of_all(fragmenter, messages.take(i + 1))),
{
    assert(messages.take(i + 1).drop_last() =~= messages.take(i));
    assert(messages.take(i + 1).last() == messages[i]);
    let before = fragments_of_all(fragmenter, messages.take(i));
    let next = fragments_of(
        fragmenter_after(fragmenter, i as nat).next_instruction_id,
        messages[i],
        fragmenter.mtu,
    );
    assert(fragments_of_all(fragmenter, messages.take(i + 1)) == before + next);
    assert forall|j: int| 0 <= j < (packets + more).len() implies carries(
        key,
        #[trigger] (packets + more)[j],
        (before + next)[j],
    ) by {
        if j < packets.len() {
            assert((packets + more)[j] == packets[j]);
        } else {
            assert((packets + more)[j] == more[j - packets.len()]);
        }
    }
}

} // verus!
