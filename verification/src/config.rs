//! Stream configuration, queue sizing and capability negotiation.

use vstd::prelude::*;
use crate::envelope::ENVELOPE_LEN;
use crate::handshake::{with_bit, Handshake, VERSION};
use crate::handshake::flags;
use crate::verbs::CmParams;

verus! {

/// Receive buffers beyond the advertised data pool. They are re-posted the
/// instant a control message lands in them, so a peer can always deliver a
/// credit return.
pub const CTRL_RECV_SLACK: usize = 2;

/// Send buffers reserved for credit returns.
pub const CTRL_SEND_SLOTS: usize = 1;

/// Send work requests reserved for the handshake.
pub const HS_SEND_SLOTS: usize = 1;

/// Receive work requests reserved for the handshake.
pub const HS_RECV_SLOTS: usize = 1;

/// Configuration of one stream.
#[derive(Debug, Clone, Copy, PartialEq, Eq, Structural)]
pub struct HordConfig {
    /// Largest message (envelope and payload) in bytes.
    pub max_message_size: usize,
    /// Receive buffers for data.
    pub recv_pool_size: usize,
    /// Send buffers for data.
    pub send_pool_size: usize,
    /// Connection-manager parameters.
    pub cm: CmParams,
    /// Advertise zero-copy responses.
    pub zero_copy: bool,
    /// Advertise protocol splitting; takes effect only with `zero_copy`.
    pub split_mode: bool,
    /// Split transfers that this end can receive at once.
    pub split_credits: usize,
}

impl Default for HordConfig {
    fn default() -> (r: Self)
        ensures
            r == (HordConfig {
                max_message_size: 65536,
                recv_pool_size: 32,
                send_pool_size: 16,
                cm: CmParams::standard(),
                zero_copy: true,
                split_mode: true,
                split_credits: 8,
            }),
            r.valid(),
    {
        HordConfig {
            max_message_size: 65536,
            recv_pool_size: 32,
            send_pool_size: 16,
            cm: CmParams::default(),
            zero_copy: true,
            split_mode: true,
            split_credits: 8,
        }
    }
}

impl HordConfig {
    /// Receives kept free for split transfers.
    pub open spec fn split_slack(self) -> int {
        if self.split_mode {
            self.split_credits as int
        } else {
            0
        }
    }

    /// Receives posted before the handshake: the data pool and the control slack.
    pub open spec fn recv_base(self) -> int {
        self.recv_pool_size + CTRL_RECV_SLACK
    }

    /// Sends that can be posted at once.
    pub open spec fn send_depth(self) -> int {
        self.send_pool_size + CTRL_SEND_SLOTS + HS_SEND_SLOTS
    }

    /// Receives that can be posted at once.
    pub open spec fn recv_depth(self) -> int {
        self.recv_base() + self.split_slack() + HS_RECV_SLOTS
    }

    /// Whether a stream can be built: a message holds more than an envelope, and
    /// the queue depths and buffer sizes can be counted.
    pub open spec fn valid(self) -> bool {
        &&& self.max_message_size > ENVELOPE_LEN
        &&& self.send_pool_size + CTRL_SEND_SLOTS + HS_SEND_SLOTS <= u32::MAX
        &&& self.recv_base() + self.split_slack() + HS_RECV_SLOTS <= usize::MAX
        &&& self.recv_base() * self.max_message_size <= usize::MAX
        &&& (self.send_pool_size + CTRL_SEND_SLOTS) * self.max_message_size <= usize::MAX
        &&& self.split_slack() * self.max_message_size <= usize::MAX
    }

    /// The split-credit window as the 16-bit wire field carries it.
    pub open spec fn wire_credits(self) -> u16 {
        if self.split_credits <= u16::MAX {
            self.split_credits as u16
        } else {
            u16::MAX
        }
    }

    /// Whether protocol splitting is advertised.
    pub open spec fn offers_split(self) -> bool {
        self.split_mode && self.zero_copy && self.split_credits > 0
    }

    /// The handshake that this configuration advertises.
    pub open spec fn advertised(self) -> Handshake {
        Handshake {
            version: VERSION,
            flags: with_bit(
                with_bit(0, flags::ZERO_COPY_CAPABLE, self.zero_copy),
                flags::SPLIT_MODE_CAPABLE,
                self.offers_split(),
            ),
            max_message_size: self.max_message_size as u32,
            max_recv_buffers: self.recv_pool_size as u16,
            split_credits: if self.offers_split() {
                self.wire_credits()
            } else {
                0
            },
        }
    }
}

impl HordConfig {
    /// Whether a stream can be built with this configuration.
    pub fn is_valid(&self) -> (r: bool)
        ensures
            r == self.valid(),
    {
        if self.max_message_size <= ENVELOPE_LEN {
            return false;
        }
        if self.send_pool_size > (u32::MAX - 2) as usize {
            return false;
        }
        let slack: usize = split_slack(self);
        if self.recv_pool_size > usize::MAX - CTRL_RECV_SLACK {
            return false;
        }
        let base: usize = self.recv_pool_size + CTRL_RECV_SLACK;
        if slack > usize::MAX - HS_RECV_SLOTS || base > usize::MAX - HS_RECV_SLOTS - slack {
            return false;
        }
        base.checked_mul(self.max_message_size).is_some() && (self.send_pool_size
            + CTRL_SEND_SLOTS).checked_mul(self.max_message_size).is_some() && slack.checked_mul(
            self.max_message_size,
        ).is_some()
    }
}

/// Receives kept free for split transfers: none unless splitting is offered.
pub fn split_slack(config: &HordConfig) -> (r: usize)
    ensures
        r == config.split_slack(),
{
    if config.split_mode {
        config.split_credits
    } else {
        0
    }
}

/// Receives posted before the handshake.
pub fn recv_base_count(config: &HordConfig) -> (r: usize)
    requires
        config.recv_base() <= usize::MAX,
    ensures
        r == config.recv_base(),
{
    config.recv_pool_size + CTRL_RECV_SLACK
}

/// Receives that the queue pair must have room for.
pub fn recv_wr_count(config: &HordConfig) -> (r: usize)
    requires
        config.recv_base() + config.split_slack() <= usize::MAX,
    ensures
        r == config.recv_base() + config.split_slack(),
{
    recv_base_count(config) + split_slack(config)
}

/// Depths of the send and the receive queue: the data pools, the control lane,
/// the split headroom and the handshake's one send and one receive. Both ends
/// size their queue pair with it.
pub fn qp_sizing(config: &HordConfig) -> (r: (usize, usize))
    requires
        config.send_pool_size + CTRL_SEND_SLOTS + HS_SEND_SLOTS <= usize::MAX,
        config.recv_base() + config.split_slack() + HS_RECV_SLOTS <= usize::MAX,
    ensures
        r.0 == config.send_depth(),
        r.1 == config.recv_depth(),
{
    (
        config.send_pool_size + CTRL_SEND_SLOTS + HS_SEND_SLOTS,
        recv_wr_count(config) + HS_RECV_SLOTS,
    )
}

/// Whether protocol splitting is advertised: it needs zero-copy and a window that
/// is not zero.
pub fn advertises_split(config: &HordConfig) -> (r: bool)
    ensures
        r == config.offers_split(),
{
    config.split_mode && config.zero_copy && config.split_credits > 0
}

/// The handshake to advertise. The split bit is set only together with a window
/// that is not zero, and only when zero-copy is advertised too.
pub fn my_handshake(config: &HordConfig) -> (r: Handshake)
    ensures
        r == config.advertised(),
{
    let credits: u16 = if config.split_credits <= u16::MAX as usize {
        config.split_credits as u16
    } else {
        u16::MAX
    };
    let split = advertises_split(config);
    Handshake::new(config.max_message_size as u32, config.recv_pool_size as u16).with_zero_copy(
        config.zero_copy,
    ).with_split_mode(split).with_split_credits(
        if split {
            credits
        } else {
            0
        },
    )
}

/// Whether splitting is usable, from the local offer, the negotiated zero-copy
/// result and the peer's handshake.
pub open spec fn split_negotiates(
    local_split: bool,
    negotiated_zero_copy: bool,
    peer: Handshake,
) -> bool {
    local_split && negotiated_zero_copy && peer.split_mode() && peer.split_credits > 0
}

/// Whether protocol splitting negotiates. It needs zero-copy, the peer's
/// capability bit and a window at the peer that is not zero.
pub fn negotiate_split(local_split: bool, negotiated_zero_copy: bool, peer: &Handshake) -> (r: bool)
    ensures
        r == split_negotiates(local_split, negotiated_zero_copy, *peer),
{
    local_split && negotiated_zero_copy && peer.split_mode_capable() && peer.split_credits > 0
}

/// What the capability bits of an advertised handshake say.
pub proof fn lemma_advertised_bits(config: HordConfig)
    ensures
        config.advertised().zero_copy() == config.zero_copy,
        config.advertised().split_mode() == config.offers_split(),
        config.offers_split() <==> config.advertised().split_credits > 0,
{
    assert((0u16 | 1) == 1 && (0u16 & !1u16) == 0 && (1u16 | 2) == 3 && (0u16 | 2) == 2 && (1u16
        & !2u16) == 1 && (0u16 & !2u16) == 0 && 3u16 & 1 == 1 && 3u16 & 2 == 2 && 2u16 & 1 == 0
        && 2u16 & 2 == 2 && 1u16 & 1 == 1 && 1u16 & 2 == 0 && 0u16 & 1 == 0 && 0u16 & 2 == 0)
        by (bit_vector);
}

/// An advertised handshake carries the split bit exactly when it carries a
/// window, and never without the zero-copy bit.
pub proof fn law_split_advert_is_consistent(config: HordConfig)
    ensures
        config.advertised().split_mode() <==> config.advertised().split_credits > 0,
        config.advertised().split_mode() ==> config.advertised().zero_copy(),
{
    lemma_advertised_bits(config);
}

/// What an end advertises is what it is configured for, as far as the wire can say
/// it: its message size and its data receives, zero-copy if it is wished, and
/// splitting only together with zero-copy and a window, which is then at most what
/// sixteen bits hold.
pub proof fn law_advert_says_what_is_configured(config: HordConfig)
    ensures
        ({
            let h = config.advertised();
            let splits = config.split_mode && config.zero_copy && config.split_credits > 0;
            &&& h.version == 1
            &&& config.max_message_size <= u32::MAX ==> h.max_message_size
                == config.max_message_size
            &&& config.recv_pool_size <= 65535 ==> h.max_recv_buffers == config.recv_pool_size
            &&& h.zero_copy() == config.zero_copy
            &&& h.split_mode() == splits
            &&& splits && config.split_credits <= 65535 ==> h.split_credits == config.split_credits
            &&& splits && config.split_credits > 65535 ==> h.split_credits == 65535
            &&& !splits ==> h.split_credits == 0
        }),
{
    lemma_advertised_bits(config);
}

/// Splitting negotiates exactly if this end offers it, zero-copy negotiated and the
/// peer has both the capability and a window.
pub proof fn law_split_needs_all_its_parts(local_split: bool, zero_copy: bool, peer: Handshake)
    ensures
        split_negotiates(local_split, zero_copy, peer) ==> local_split && zero_copy
            && peer.split_mode() && peer.split_credits > 0,
        local_split && zero_copy && peer.split_mode() && peer.split_credits > 0
            ==> split_negotiates(local_split, zero_copy, peer),
{
}

/// The receives that are posted before the handshake are the data pool and at least
/// one more, so that a credit return finds one while the pool is in use; only an end
/// that splits keeps receives for transfers.
pub proof fn law_receives_beyond_the_pool(config: HordConfig)
    ensures
        config.recv_base() == config.recv_pool_size + 2,
        config.split_mode ==> config.split_slack() == config.split_credits,
        !config.split_mode ==> config.split_slack() == 0,
        config.offers_split() ==> config.split_slack() >= config.advertised().split_credits,
{
}

/// The queues hold everything that can be posted at once: a send for every data slot,
/// the credit return and the handshake; a receive for every data message, two for
/// credit returns, one for every split transfer and one for the handshake.
pub proof fn law_queues_hold_everything(config: HordConfig)
    ensures
        config.send_depth() == config.send_pool_size + 2,
        config.recv_depth() == config.recv_pool_size + 3 + (if config.split_mode {
            config.split_credits as int
        } else {
            0
        }),
{
}

/// A configuration is usable exactly if a message holds more than the eight bytes of
/// an envelope, the depths of the queues can be counted, and so can the bytes of each
/// region: a slot for every data message and two for credit returns to receive, one for
/// every data message and one for credit returns to send, and one for every split
/// transfer.
pub proof fn law_usable_configurations(config: HordConfig)
    ensures
        config.valid() <==> {
            let m = config.max_message_size as int;
            let split = if config.split_mode {
                config.split_credits as int
            } else {
                0
            };
            &&& m >= 9
            &&& config.send_depth() < 0x1_0000_0000
            &&& config.recv_depth() <= usize::MAX
            &&& (config.recv_pool_size + 2) * m <= usize::MAX
            &&& (config.send_pool_size + 1) * m <= usize::MAX
            &&& split * m <= usize::MAX
        },
{
}

} // verus!
