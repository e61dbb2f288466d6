//! Delivery rate estimation: a transport sender's on-the-fly estimate of the rate at
//! which its data is being delivered (draft-cheng-iccrg-delivery-rate-estimation-02).
//!
//! Times are nanoseconds since an origin fixed by the caller; durations are
//! nanoseconds.

use vstd::prelude::*;

verus! {

/// Rate sample output.
#[derive(Debug, Clone, Copy)]
pub struct RateSample {
    /// rs.delivery_rate: the delivery rate sample (in most cases rs.delivered / rs.interval).
    pub delivery_rate: u32,
    /// rs.is_app_limited: P.is_app_limited from the most recent packet delivered.
    pub is_app_limited: bool,
    /// rs.interval: the length of the sampling interval.
    pub interval: u64,
    /// rs.delivered: the amount of data marked as delivered over the sampling interval.
    pub delivered: u32,
    /// rs.prior_delivered: the P.delivered count from the most recent packet delivered.
    pub prior_delivered: u32,
    /// rs.prior_time: the P.delivered_time from the most recent packet delivered.
    pub prior_time: Option<u64>,
    /// rs.send_elapsed: send time interval calculated from the most recent packet delivered.
    pub send_elapsed: u64,
    /// rs.ack_elapsed: ACK time interval calculated from the most recent packet delivered.
    pub ack_elapsed: u64,
    /// Sample round-trip time.
    pub rtt: u64,
}

impl Default for RateSample {
    fn default() -> (s: RateSample)
        ensures
            s == (RateSample {
                delivery_rate: 0,
                is_app_limited: false,
                interval: 0,
                delivered: 0,
                prior_delivered: 0,
                prior_time: None,
                send_elapsed: 0,
                ack_elapsed: 0,
                rtt: 0,
            }),
    {
        RateSample {
            delivery_rate: 0,
            is_app_limited: false,
            interval: 0,
            delivered: 0,
            prior_delivered: 0,
            prior_time: None,
            send_elapsed: 0,
            ack_elapsed: 0,
            rtt: 0,
        }
    }
}

/// Per-packet state for delivery rate estimation.
#[derive(Debug, Clone, Copy)]
pub struct RateSamplePacketState {
    /// P.delivered: C.delivered when the packet was sent.
    pub delivered: u32,
    /// P.delivered_time: C.delivered_time when the packet was sent.
    pub delivered_time: Option<u64>,
    /// P.first_sent_time: C.first_sent_time when the packet was sent.
    pub first_sent_time: Option<u64>,
    /// P.is_app_limited: whether C.app_limited was non-zero when the packet was sent.
    pub is_app_limited: bool,
    /// The volume of data estimated to be in flight when the packet was sent.
    pub tx_in_flight: u32,
    /// The volume of data declared lost when the packet was sent.
    pub lost: u32,
}

impl Default for RateSamplePacketState {
    fn default() -> (s: RateSamplePacketState)
        ensures
            s == (RateSamplePacketState {
                delivered: 0,
                delivered_time: None,
                first_sent_time: None,
                is_app_limited: false,
                tx_in_flight: 0,
                lost: 0,
            }),
    {
        RateSamplePacketState {
            delivered: 0,
            delivered_time: None,
            first_sent_time: None,
            is_app_limited: false,
            tx_in_flight: 0,
            lost: 0,
        }
    }
}

/// Metadata of a sent packet.
#[derive(Debug, Clone, Copy)]
pub struct SentPacket {
    /// The packet number of the sent packet.
    pub pkt_num: u32,
    /// The acknowledgement number that acknowledges the whole packet.
    pub ack_no: u32,
    /// The time the packet was sent.
    pub time_sent: u64,
    /// The time the packet was acknowledged, if any.
    pub time_acked: Option<u64>,
    /// The number of bytes sent in the packet.
    pub sent_size: usize,
    /// Snapshot of the current delivery information.
    pub rate_sample_state: RateSamplePacketState,
}

/// Delivery rate estimator.
#[derive(Debug, Clone, Copy)]
pub struct DeliveryRateEstimator {
    /// C.delivered: the total amount of data delivered so far over the lifetime of the
    /// transport connection.
    pub delivered: u32,
    /// C.delivered_time: the time when C.delivered was last updated.
    pub delivered_time: u64,
    /// C.first_sent_time: the send time of the packet most recently marked delivered,
    /// or, after an idle period, of the packet most recently sent.
    pub first_sent_time: u64,
    /// C.app_limited: the number of the last packet sent while application-limited, or
    /// 0 when the connection is not application-limited.
    pub last_app_limited_pkt_num: u32,
    /// The largest packet number acknowledged.
    pub largest_acked_pkt_num: u32,
    /// The last packet number sent.
    pub last_sent_pkt_num: u32,
    /// The current rate sample.
    pub rate_sample: RateSample,
}

/// `a - b`, or zero when `b` is later.
pub open spec fn since(a: u64, b: u64) -> u64 {
    if a >= b {
        (a - b) as u64
    } else {
        0
    }
}

/// The estimator and packet after an acknowledgement of `p`.
pub open spec fn update_rate_sample_spec(e: DeliveryRateEstimator, p: SentPacket) -> (
    DeliveryRateEstimator,
    SentPacket,
) {
    if p.rate_sample_state.delivered_time is None || p.time_acked is None {
        (e, p)
    } else {
        let delivered = if e.delivered + (p.sent_size as u32) > u32::MAX {
            u32::MAX
        } else {
            (e.delivered + (p.sent_size as u32)) as u32
        };
        let delivered_time = p.time_acked.unwrap();
        let newest = e.rate_sample.prior_time is None || p.rate_sample_state.delivered
            > e.rate_sample.prior_delivered;
        let prior_delivered = if newest {
            p.rate_sample_state.delivered
        } else {
            e.rate_sample.prior_delivered
        };
        let rs = RateSample {
            prior_delivered,
            prior_time: if newest {
                p.rate_sample_state.delivered_time
            } else {
                e.rate_sample.prior_time
            },
            is_app_limited: if newest {
                p.rate_sample_state.is_app_limited
            } else {
                e.rate_sample.is_app_limited
            },
            send_elapsed: since(
                p.time_sent,
                if p.rate_sample_state.first_sent_time is Some {
                    p.rate_sample_state.first_sent_time.unwrap()
                } else {
                    p.time_sent
                },
            ),
            ack_elapsed: since(delivered_time, p.rate_sample_state.delivered_time.unwrap()),
            rtt: since(delivered_time, p.time_sent),
            delivered: if delivered >= prior_delivered {
                (delivered - prior_delivered) as u32
            } else {
                0
            },
            ..e.rate_sample
        };
        (
            DeliveryRateEstimator {
                delivered,
                delivered_time,
                first_sent_time: if newest {
                    p.time_sent
                } else {
                    e.first_sent_time
                },
                largest_acked_pkt_num: if p.pkt_num >= e.largest_acked_pkt_num {
                    p.pkt_num
                } else {
                    e.largest_acked_pkt_num
                },
                rate_sample: rs,
                ..e
            },
            SentPacket {
                rate_sample_state: RateSamplePacketState {
                    delivered_time: None,
                    ..p.rate_sample_state
                },
                ..p
            },
        )
    }
}

/// The app-limited mark after it is cleared when the bubble has been acknowledged.
pub open spec fn app_limit_cleared(e: DeliveryRateEstimator) -> DeliveryRateEstimator {
    if e.last_app_limited_pkt_num != 0 && e.largest_acked_pkt_num > e.last_app_limited_pkt_num {
        DeliveryRateEstimator { last_app_limited_pkt_num: 0, ..e }
    } else {
        e
    }
}

/// The sampling interval: the longer of the send and ACK intervals.
pub open spec fn sample_interval(rs: RateSample) -> u64 {
    if rs.send_elapsed >= rs.ack_elapsed {
        rs.send_elapsed
    } else {
        rs.ack_elapsed
    }
}

/// The data delivered since the sample's prior delivery count.
pub open spec fn sample_delivered_since(e: DeliveryRateEstimator) -> u32 {
    if e.delivered >= e.rate_sample.prior_delivered {
        (e.delivered - e.rate_sample.prior_delivered) as u32
    } else {
        0
    }
}

/// Whether the rate computation has a sample with a non-zero interval to divide by.
pub open spec fn rate_is_computed(e: DeliveryRateEstimator) -> bool {
    e.rate_sample.prior_time is Some && sample_interval(e.rate_sample) != 0
}

/// The estimator after the rate sample for an ACK is generated.
pub open spec fn generate_rate_sample_spec(e0: DeliveryRateEstimator) -> DeliveryRateEstimator {
    let e = app_limit_cleared(e0);
    if e.rate_sample.prior_time is None {
        e
    } else {
        let interval = sample_interval(e.rate_sample);
        let delivered = sample_delivered_since(e);
        let rs = RateSample { interval, delivered, ..e.rate_sample };
        if interval == 0 {
            DeliveryRateEstimator { rate_sample: rs, ..e }
        } else {
            DeliveryRateEstimator {
                rate_sample: RateSample {
                    delivery_rate: (delivered * 1_000_000 / ((interval / 1000) as u32) as int) as u32,
                    ..rs
                },
                ..e
            }
        }
    }
}

/// A packet is counted as delivered once: acknowledging it again changes nothing,
/// and the delivered count never decreases.
pub proof fn lemma_ack_counted_once(e: DeliveryRateEstimator, p: SentPacket)
    ensures
        ({
            let (e1, p1) = update_rate_sample_spec(e, p);
            &&& update_rate_sample_spec(e1, p1) == (e1, p1)
            &&& e1.delivered >= e.delivered
        }),
{
}

/// An acknowledgement of a packet that was sent and not yet counted adds its size to the
/// delivered count (up to `u32::MAX`), moves the delivery time to the acknowledgement
/// time, and measures the round trip from the packet's own send time, the send interval
/// from the first send time recorded in the packet to its send time, and the ACK interval
/// from the delivery time recorded in the packet to the acknowledgement (each zero when
/// negative). A packet sent after the sample's prior delivery (or the first one) becomes
/// the sample's prior delivery. The packet is then marked as counted.
pub proof fn lemma_ack_measures_from_the_packet(e: DeliveryRateEstimator, p: SentPacket)
    requires
        p.rate_sample_state.delivered_time is Some,
        p.time_acked is Some,
    ensures
        ({
            let (e1, p1) = update_rate_sample_spec(e, p);
            let t = p.time_acked.unwrap();
            let sent_from = match p.rate_sample_state.first_sent_time {
                Some(f) => f,
                None => p.time_sent,
            };
            let delivered_at = p.rate_sample_state.delivered_time.unwrap();
            &&& e1.delivered == if e.delivered + (p.sent_size as u32) > u32::MAX {
                u32::MAX as int
            } else {
                e.delivered + (p.sent_size as u32)
            }
            &&& e1.delivered_time == t
            &&& e1.rate_sample.rtt == if t >= p.time_sent {
                t - p.time_sent
            } else {
                0
            }
            &&& e1.rate_sample.send_elapsed == if p.time_sent >= sent_from {
                p.time_sent - sent_from
            } else {
                0
            }
            &&& e1.rate_sample.ack_elapsed == if t >= delivered_at {
                t - delivered_at
            } else {
                0
            }
            &&& e1.rate_sample.delivered == if e1.delivered >= e1.rate_sample.prior_delivered {
                e1.delivered - e1.rate_sample.prior_delivered
            } else {
                0
            }
            &&& p1.rate_sample_state.delivered_time is None
            &&& e1.largest_acked_pkt_num == if p.pkt_num >= e.largest_acked_pkt_num {
                p.pkt_num
            } else {
                e.largest_acked_pkt_num
            }
            &&& if e.rate_sample.prior_time is None || p.rate_sample_state.delivered
                > e.rate_sample.prior_delivered {
                &&& e1.rate_sample.prior_delivered == p.rate_sample_state.delivered
                &&& e1.rate_sample.prior_time == p.rate_sample_state.delivered_time
                &&& e1.rate_sample.is_app_limited == p.rate_sample_state.is_app_limited
                &&& e1.first_sent_time == p.time_sent
            } else {
                &&& e1.rate_sample.prior_delivered == e.rate_sample.prior_delivered
                &&& e1.rate_sample.prior_time == e.rate_sample.prior_time
                &&& e1.rate_sample.is_app_limited == e.rate_sample.is_app_limited
                &&& e1.first_sent_time == e.first_sent_time
            }
        }),
{
}

/// When the sample has a prior delivery, generating it takes the longer of the send and
/// ACK intervals as its interval and the bytes delivered since the prior delivery count
/// as its delivered bytes; with a non-zero interval, the delivery rate is those bytes per
/// second: the bytes times 1_000_000 over the interval in whole microseconds. Data
/// delivered before the prior delivery count plays no part.
pub proof fn lemma_rate_is_sample_bytes_per_second(e: DeliveryRateEstimator)
    requires
        e.rate_sample.prior_time is Some,
    ensures
        ({
            let r = generate_rate_sample_spec(e);
            let bytes: int = if e.delivered >= e.rate_sample.prior_delivered {
                e.delivered - e.rate_sample.prior_delivered
            } else {
                0
            };
            let interval = if e.rate_sample.send_elapsed >= e.rate_sample.ack_elapsed {
                e.rate_sample.send_elapsed
            } else {
                e.rate_sample.ack_elapsed
            };
            let micros = (interval / 1000) as u32;
            &&& r.delivered == e.delivered
            &&& r.rate_sample.prior_delivered == e.rate_sample.prior_delivered
            &&& r.rate_sample.interval == interval
            &&& r.rate_sample.delivered == bytes
            &&& interval == 0 ==> r.rate_sample.delivery_rate == e.rate_sample.delivery_rate
            &&& interval != 0 && micros != 0 && bytes * 1_000_000 / (micros as int) <= u32::MAX
                ==> r.rate_sample.delivery_rate == bytes * 1_000_000 / (micros as int)
        }),
{
}

/// Generating a rate sample leaves the delivered count and the delivery times alone.
pub proof fn lemma_generate_keeps_counts(e: DeliveryRateEstimator)
    ensures
        generate_rate_sample_spec(e).delivered == e.delivered,
        generate_rate_sample_spec(e).delivered_time == e.delivered_time,
        generate_rate_sample_spec(e).first_sent_time == e.first_sent_time,
        generate_rate_sample_spec(e).largest_acked_pkt_num == e.largest_acked_pkt_num,
{
}

/// The estimator after packet `p` is sent with `bytes_in_flight` bytes in flight: with
/// nothing in flight, the send and delivery times restart at `p`'s send time.
pub open spec fn packet_sent_spec(e: DeliveryRateEstimator, p: SentPacket, bytes_in_flight: u32) -> DeliveryRateEstimator {
    let restart = bytes_in_flight == 0;
    DeliveryRateEstimator {
        first_sent_time: if restart {
            p.time_sent
        } else {
            e.first_sent_time
        },
        delivered_time: if restart {
            p.time_sent
        } else {
            e.delivered_time
        },
        last_sent_pkt_num: p.pkt_num,
        ..e
    }
}

/// The estimator after its app-limited status is set to `is_app_limited`.
pub open spec fn app_limited_spec(e: DeliveryRateEstimator, is_app_limited: bool) -> DeliveryRateEstimator {
    DeliveryRateEstimator {
        last_app_limited_pkt_num: if is_app_limited {
            if e.last_sent_pkt_num >= 1 {
                e.last_sent_pkt_num
            } else {
                1
            }
        } else {
            0
        },
        ..e
    }
}

/// The sample's delivered count is the data delivered since its prior delivery count.
pub open spec fn sample_consistent(e: DeliveryRateEstimator) -> bool {
    e.rate_sample.delivered == sample_delivered_since(e)
}

/// A call on an estimator.
pub enum EstimatorEvent {
    /// `on_packet_sent` of the packet, with the bytes in flight and lost.
    Sent(SentPacket, u32, u32),
    /// `update_rate_sample` of the packet.
    Acked(SentPacket),
    /// `generate_rate_sample`.
    RateSampled,
    /// `set_app_limited`.
    AppLimited(bool),
}

/// The estimator after event `ev`.
pub open spec fn after_event(e: DeliveryRateEstimator, ev: EstimatorEvent) -> DeliveryRateEstimator {
    match ev {
        EstimatorEvent::Sent(p, in_flight, _) => packet_sent_spec(e, p, in_flight),
        EstimatorEvent::Acked(p) => update_rate_sample_spec(e, p).0,
        EstimatorEvent::RateSampled => generate_rate_sample_spec(e),
        EstimatorEvent::AppLimited(b) => app_limited_spec(e, b),
    }
}

/// The estimator after events `evs`, in order.
pub open spec fn after_events(e: DeliveryRateEstimator, evs: Seq<EstimatorEvent>) -> DeliveryRateEstimator
    decreases evs.len(),
{
    if evs.len() == 0 {
        e
    } else {
        after_event(after_events(e, evs.drop_last()), evs.last())
    }
}

/// The bytes of the packets acknowledged in `evs` that were sent and not yet delivered:
/// those an acknowledgement counts.
pub open spec fn acked_bytes(evs: Seq<EstimatorEvent>) -> int
    decreases evs.len(),
{
    if evs.len() == 0 {
        0
    } else {
        acked_bytes(evs.drop_last()) + match evs.last() {
            EstimatorEvent::Acked(p) => if p.rate_sample_state.delivered_time is Some
                && p.time_acked is Some {
                (p.sent_size as u32) as int
            } else {
                0
            },
            _ => 0,
        }
    }
}

/// The delivered count is all the data acknowledged so far, each acknowledged packet
/// once, up to `u32::MAX`: after any events, it is the count before plus the bytes their
/// acknowledgements count, capped at `u32::MAX`.
pub proof fn lemma_delivered_is_capped_sum(e: DeliveryRateEstimator, evs: Seq<EstimatorEvent>)
    ensures
        after_events(e, evs).delivered == if e.delivered + acked_bytes(evs) > u32::MAX {
            u32::MAX as int
        } else {
            e.delivered + acked_bytes(evs)
        },
    decreases evs.len(),
{
    if evs.len() > 0 {
        lemma_delivered_is_capped_sum(e, evs.drop_last());
        lemma_acked_bytes_nonneg(evs.drop_last());
        lemma_generate_keeps_counts(after_events(e, evs.drop_last()));
    }
}

proof fn lemma_acked_bytes_nonneg(evs: Seq<EstimatorEvent>)
    ensures
        acked_bytes(evs) >= 0,
    decreases evs.len(),
{
    if evs.len() > 0 {
        lemma_acked_bytes_nonneg(evs.drop_last());
    }
}

/// The sample's delivered count is the data delivered since its prior delivery count in
/// every estimator reached from a new one: each call keeps it.
pub proof fn lemma_sample_stays_consistent(e: DeliveryRateEstimator, evs: Seq<EstimatorEvent>)
    requires
        sample_consistent(e),
    ensures
        sample_consistent(after_events(e, evs)),
    decreases evs.len(),
{
    if evs.len() > 0 {
        lemma_sample_stays_consistent(e, evs.drop_last());
    }
}

impl DeliveryRateEstimator {
    /// An estimator with nothing delivered, created at time `now`.
    pub fn new(now: u64) -> (e: DeliveryRateEstimator)
        ensures
            e == (DeliveryRateEstimator {
                delivered: 0,
                delivered_time: now,
                first_sent_time: now,
                last_app_limited_pkt_num: 0,
                largest_acked_pkt_num: 0,
                last_sent_pkt_num: 0,
                rate_sample: RateSample {
                    delivery_rate: 0,
                    is_app_limited: false,
                    interval: 0,
                    delivered: 0,
                    prior_delivered: 0,
                    prior_time: None,
                    send_elapsed: 0,
                    ack_elapsed: 0,
                    rtt: 0,
                },
            }),
            sample_consistent(e),
    {
        DeliveryRateEstimator {
            delivered: 0,
            delivered_time: now,
            first_sent_time: now,
            last_app_limited_pkt_num: 0,
            largest_acked_pkt_num: 0,
            last_sent_pkt_num: 0,
            rate_sample: RateSample::default(),
        }
    }

    /// Upon each packet transmission, records the delivery state in the packet.
    pub fn on_packet_sent(&mut self, packet: &mut SentPacket, bytes_in_flight: u32, bytes_lost: u32)
        ensures
            *final(self) == packet_sent_spec(*old(self), *old(packet), bytes_in_flight),
            sample_consistent(*old(self)) ==> sample_consistent(*final(self)),
            ({
                let e = packet_sent_spec(*old(self), *old(packet), bytes_in_flight);
                &&& *final(packet) == SentPacket {
                    rate_sample_state: RateSamplePacketState {
                        first_sent_time: Some(e.first_sent_time),
                        delivered_time: Some(e.delivered_time),
                        delivered: old(self).delivered,
                        is_app_limited: old(self).last_app_limited_pkt_num != 0,
                        tx_in_flight: bytes_in_flight,
                        lost: bytes_lost,
                    },
                    ..*old(packet)
                }
            }),
    {
        // No packets in flight yet?
        if bytes_in_flight == 0 {
            self.first_sent_time = packet.time_sent;
            self.delivered_time = packet.time_sent;
        }
        packet.rate_sample_state.first_sent_time = Some(self.first_sent_time);
        packet.rate_sample_state.delivered_time = Some(self.delivered_time);
        packet.rate_sample_state.delivered = self.delivered;
        packet.rate_sample_state.is_app_limited = self.is_app_limited();
        packet.rate_sample_state.tx_in_flight = bytes_in_flight;
        packet.rate_sample_state.lost = bytes_lost;
        self.last_sent_pkt_num = packet.pkt_num;
    }

    /// Updates the rate sample when a packet is SACKed or ACKed.
    pub fn update_rate_sample(&mut self, packet: &mut SentPacket)
        ensures
            (*final(self), *final(packet)) == update_rate_sample_spec(*old(self), *old(packet)),
            sample_consistent(*old(self)) ==> sample_consistent(*final(self)),
    {
        if packet.rate_sample_state.delivered_time.is_none() || packet.time_acked.is_none() {
            // Packet already SACKed or packet not acked.
            return;
        }
        self.delivered = self.delivered.saturating_add(packet.sent_size as u32);
        self.delivered_time = packet.time_acked.unwrap();
        // Update info using the newest packet.
        if self.rate_sample.prior_time.is_none() || packet.rate_sample_state.delivered
            > self.rate_sample.prior_delivered {
            self.rate_sample.prior_delivered = packet.rate_sample_state.delivered;
            self.rate_sample.prior_time = packet.rate_sample_state.delivered_time;
            self.rate_sample.is_app_limited = packet.rate_sample_state.is_app_limited;
            self.first_sent_time = packet.time_sent;
        }
        // Use each ACK to update delivery rate.
        let first_sent = match packet.rate_sample_state.first_sent_time {
            Some(t) => t,
            None => packet.time_sent,
        };
        self.rate_sample.send_elapsed = packet.time_sent.saturating_sub(first_sent);
        let delivered_at = match packet.rate_sample_state.delivered_time {
            Some(t) => t,
            None => packet.time_sent,
        };
        self.rate_sample.ack_elapsed = self.delivered_time.saturating_sub(delivered_at);
        self.rate_sample.rtt = self.delivered_time.saturating_sub(packet.time_sent);
        self.rate_sample.delivered = self.delivered.saturating_sub(self.rate_sample.prior_delivered);
        // Mark the packet as delivered once it's SACKed to avoid being used again when
        // it's cumulatively acked.
        packet.rate_sample_state.delivered_time = None;
        self.largest_acked_pkt_num = if packet.pkt_num >= self.largest_acked_pkt_num {
            packet.pkt_num
        } else {
            self.largest_acked_pkt_num
        };
    }

    /// Upon receiving an ACK, fills in the delivery rate sample.
    pub fn generate_rate_sample(&mut self)
        requires
            rate_is_computed(app_limit_cleared(*old(self))) ==> ({
                let e = app_limit_cleared(*old(self));
                &&& ((sample_interval(e.rate_sample) / 1000) as u32) != 0
                &&& sample_delivered_since(e) * 1_000_000 / (((sample_interval(e.rate_sample) / 1000) as u32) as int)
                    <= u32::MAX
            }),
        ensures
            *final(self) == generate_rate_sample_spec(*old(self)),
            sample_consistent(*old(self)) ==> sample_consistent(*final(self)),
    {
        // Clear app-limited field if bubble is ACKed and gone.
        if self.is_app_limited() && self.largest_acked_pkt_num > self.last_app_limited_pkt_num {
            self.set_app_limited(false);
        }
        // Nothing delivered on this ACK.
        if self.rate_sample.prior_time.is_none() {
            return;
        }
        // Use the longer of the send_elapsed and ack_elapsed.
        self.rate_sample.interval = if self.rate_sample.send_elapsed >= self.rate_sample.ack_elapsed {
            self.rate_sample.send_elapsed
        } else {
            self.rate_sample.ack_elapsed
        };
        self.rate_sample.delivered = self.delivered.saturating_sub(self.rate_sample.prior_delivered);
        if self.rate_sample.interval == 0 {
            return;
        }
        // Bytes per second, from bytes per microsecond.
        let micros: u32 = (self.rate_sample.interval / 1000) as u32;
        let delivered: u64 = self.rate_sample.delivered as u64;
        assert(delivered * 1_000_000 <= u32::MAX as int * 1_000_000) by (nonlinear_arith)
            requires
                delivered <= u32::MAX,
        ;
        let rate: u64 = delivered * 1_000_000u64 / (micros as u64);
        self.rate_sample.delivery_rate = rate as u32;
    }

    /// Sets the app-limited status, recording the latest packet number as the end of
    /// the app-limited period.
    pub fn set_app_limited(&mut self, is_app_limited: bool)
        ensures
            *final(self) == app_limited_spec(*old(self), is_app_limited),
            sample_consistent(*old(self)) ==> sample_consistent(*final(self)),
    {
        self.last_app_limited_pkt_num = if is_app_limited {
            if self.last_sent_pkt_num >= 1 {
                self.last_sent_pkt_num
            } else {
                1
            }
        } else {
            0
        }
    }

    /// Checks whether the connection is application limited.
    pub fn is_app_limited(&self) -> (b: bool)
        ensures
            b == (self.last_app_limited_pkt_num != 0),
    {
        self.last_app_limited_pkt_num != 0
    }

    /// C.delivered.
    pub fn delivered(&self) -> (d: u32)
        ensures
            d == self.delivered,
    {
        self.delivered
    }

    /// rs.delivered.
    pub fn sample_delivered(&self) -> (d: u32)
        ensures
            d == self.rate_sample.delivered,
    {
        self.rate_sample.delivered
    }

    /// rs.prior_delivered.
    pub fn sample_prior_delivered(&self) -> (d: u32)
        ensures
            d == self.rate_sample.prior_delivered,
    {
        self.rate_sample.prior_delivered
    }

    /// Delivery rate.
    pub fn delivery_rate(&self) -> (r: u32)
        ensures
            r == self.rate_sample.delivery_rate,
    {
        self.rate_sample.delivery_rate
    }

    /// Rate sample round-trip time.
    pub fn sample_rtt(&self) -> (t: u64)
        ensures
            t == self.rate_sample.rtt,
    {
        self.rate_sample.rtt
    }

    /// Checks whether the current rate sample is application limited.
    pub fn is_sample_app_limited(&self) -> (b: bool)
        ensures
            b == self.rate_sample.is_app_limited,
    {
        self.rate_sample.is_app_limited
    }
}

} // verus!
