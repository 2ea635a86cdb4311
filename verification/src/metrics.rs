//! The metrics of the relay: counters, the latencies of the latest
//! requests, and their exposition for Prometheus.
//!
//! Counters start over after the largest `u64`.

use vstd::prelude::*;
use crate::numerals::{decimal_digits, push_decimal};
use crate::registry::Registry;
use crate::text::push_str;

verus! {

/// The metrics of one subdomain.
#[derive(Debug, Clone, Copy)]
pub struct SubdomainMetrics {
    pub requests: u64,
    pub errors: u64,
    pub bytes_in: u64,
    pub bytes_out: u64,
}

impl Default for SubdomainMetrics {
    fn default() -> (r: SubdomainMetrics)
        ensures
            r.requests == 0 && r.errors == 0 && r.bytes_in == 0 && r.bytes_out == 0,
    {
        SubdomainMetrics { requests: 0, errors: 0, bytes_in: 0, bytes_out: 0 }
    }
}

/// The latencies of the latest requests, in microseconds: a ring that holds
/// as many as it was made for.
#[derive(Debug)]
pub struct LatencyHistogram {
    /// The ring.
    pub values: Vec<u64>,
    /// Where the next latency is written.
    pub pos: usize,
    /// How many latencies were recorded.
    pub count: u64,
    /// Their sum.
    pub sum: u64,
}

/// `s` is in ascending order.
pub open spec fn ascending(s: Seq<u64>) -> bool {
    forall|i: int, j: int| 0 <= i <= j < s.len() ==> s[i] <= s[j]
}

/// `<[u64]>::sort_unstable` of std: puts the values in ascending order.
/// The values are the same as before, each as often as before.
#[verifier::external_body]
fn sort_values(v: &mut Vec<u64>)
    ensures
        ascending(final(v)@),
        final(v)@.to_multiset() == old(v)@.to_multiset(),
{
    v.sort_unstable()
}

impl LatencyHistogram {
    /// The ring holds at least one latency and the place to write is in it.
    pub open spec fn well_formed(&self) -> bool {
        self.values@.len() > 0 && self.pos < self.values@.len()
    }

    /// The latencies that count for the percentiles: all that were recorded
    /// while the ring is not full, else the whole ring.
    pub open spec fn window(&self) -> Seq<u64> {
        if self.count < self.values@.len() {
            self.values@.take(self.count as int)
        } else {
            self.values@
        }
    }

    /// A ring for `capacity` latencies, all of them zero.
    pub fn new(capacity: usize) -> (r: LatencyHistogram)
        ensures
            r.values@.len() == capacity,
            forall|i: int| 0 <= i < capacity ==> r.values@[i] == 0,
            r.pos == 0 && r.count == 0 && r.sum == 0,
            capacity > 0 ==> r.well_formed(),
    {
        let mut values: Vec<u64> = Vec::new();
        let mut i: usize = 0;
        while i < capacity
            invariant
                i <= capacity,
                values@.len() == i,
                forall|j: int| 0 <= j < i ==> values@[j] == 0,
            decreases capacity - i,
        {
            values.push(0);
            i += 1;
        }
        LatencyHistogram { values, pos: 0, count: 0, sum: 0 }
    }

    /// Records a latency in place of the oldest one.
    pub fn record(&mut self, latency_us: u64)
        requires
            old(self).well_formed(),
        ensures
            final(self).well_formed(),
            final(self).values@ == old(self).values@.update(old(self).pos as int, latency_us),
            final(self).pos == (old(self).pos + 1) % (old(self).values@.len() as int),
            final(self).count == old(self).count.wrapping_add(1),
            final(self).sum == old(self).sum.wrapping_add(latency_us),
    {
        let at = self.pos;
        let n = self.values.len();
        assert(at < n);
        self.values.set(at, latency_us);
        self.pos = (at + 1) % n;
        self.count = self.count.wrapping_add(1);
        self.sum = self.sum.wrapping_add(latency_us);
    }

    /// The place of percentile `p` among `n` latencies in ascending order.
    pub open spec fn rank(n: nat, p: u64) -> int {
        if n * p / 100 < n {
            (n * p / 100) as int
        } else {
            n - 1
        }
    }

    /// The latency at percentile `p`: the one at the rank of `p` among the
    /// latencies of the window in ascending order; 0 where nothing was
    /// recorded.
    pub fn percentile(&self, p: u64) -> (r: u64)
        ensures
            self.window().len() == 0 ==> r == 0,
            self.window().len() > 0 ==> exists|sorted: Seq<u64>|
                ascending(sorted) && sorted.to_multiset() == self.window().to_multiset()
                    && sorted.len() == self.window().len() && r == #[trigger] sorted[Self::rank(
                    self.window().len(),
                    p,
                )],
    {
        let n: usize = if self.count < self.values.len() as u64 {
            self.count as usize
        } else {
            self.values.len()
        };
        if n == 0 {
            return 0;
        }
        let mut sorted: Vec<u64> = Vec::new();
        let mut i: usize = 0;
        while i < n
            invariant
                i <= n <= self.values@.len(),
                sorted@ == self.values@.take(i as int),
            decreases n - i,
        {
            sorted.push(self.values[i]);
            assert(self.values@.take(i + 1) == self.values@.take(i as int).push(
                self.values@[i as int],
            ));
            i += 1;
        }
        assert(self.values@.take(self.values@.len() as int) == self.values@);
        assert(sorted@ == self.window());
        let ghost before = sorted@;
        sort_values(&mut sorted);
        proof {
            before.to_multiset_ensures();
            sorted@.to_multiset_ensures();
        }
        assert((n as u128) * (p as u128) <= 0xFFFF_FFFF_FFFF_FFFFu128 * 0xFFFF_FFFF_FFFF_FFFFu128)
            by (nonlinear_arith)
            requires
                n <= 0xFFFF_FFFF_FFFF_FFFFu128,
                p <= 0xFFFF_FFFF_FFFF_FFFFu128,
        ;
        let wide: u128 = (n as u128) * (p as u128) / 100;
        let at: usize = if wide < n as u128 {
            wide as usize
        } else {
            n - 1
        };
        proof {
            assert(sorted@.len() == before.len());
            assert(at == Self::rank(n as nat, p));
        }
        sorted[at]
    }

    /// The mean of all latencies that were recorded; 0 where none was.
    pub open spec fn mean(&self) -> u64 {
        if self.count == 0 {
            0
        } else {
            self.sum / self.count
        }
    }

    /// The mean of all latencies that were recorded; 0 where none was.
    pub fn average(&self) -> (r: u64)
        ensures
            r == self.mean(),
    {
        if self.count == 0 {
            0
        } else {
            self.sum / self.count
        }
    }
}

/// The metrics of the relay.
pub struct Metrics {
    pub total_requests: u64,
    pub active_tunnels: u64,
    pub status_2xx: u64,
    pub status_3xx: u64,
    pub status_4xx: u64,
    pub status_5xx: u64,
    pub bytes_in: u64,
    pub bytes_out: u64,
    pub latencies: LatencyHistogram,
    pub subdomain_metrics: Registry<SubdomainMetrics>,
}

/// How many latencies the metrics keep.
pub const LATENCY_WINDOW: usize = 10000;

/// The metrics of a subdomain after one more request.
pub open spec fn counted_request(
    m: SubdomainMetrics,
    status: u16,
    bytes_in: u64,
    bytes_out: u64,
) -> SubdomainMetrics {
    SubdomainMetrics {
        requests: m.requests.wrapping_add(1),
        errors: if status >= 400 {
            m.errors.wrapping_add(1)
        } else {
            m.errors
        },
        bytes_in: m.bytes_in.wrapping_add(bytes_in),
        bytes_out: m.bytes_out.wrapping_add(bytes_out),
    }
}

/// A text with one more metric: a prefix and the number.
pub open spec fn with_metric(t: Seq<char>, prefix: Seq<char>, v: u64) -> Seq<char> {
    t + prefix + decimal_digits(v as nat)
}

fn push_metric(s: &mut String, prefix: &str, v: u64)
    ensures
        final(s)@ == with_metric(old(s)@, prefix@, v),
{
    push_str(s, prefix);
    push_decimal(s, v);
}

impl Metrics {
    /// Metrics that have counted nothing.
    pub fn new() -> (m: Metrics)
        ensures
            m.total_requests == 0 && m.active_tunnels == 0,
            m.status_2xx == 0 && m.status_3xx == 0 && m.status_4xx == 0 && m.status_5xx == 0,
            m.bytes_in == 0 && m.bytes_out == 0,
            m.latencies.well_formed(),
            m.latencies.count == 0,
            m.subdomain_metrics.well_formed(),
            m.subdomain_metrics.entries().len() == 0,
    {
        Metrics {
            total_requests: 0,
            active_tunnels: 0,
            status_2xx: 0,
            status_3xx: 0,
            status_4xx: 0,
            status_5xx: 0,
            bytes_in: 0,
            bytes_out: 0,
            latencies: LatencyHistogram::new(LATENCY_WINDOW),
            subdomain_metrics: Registry::new(),
        }
    }

    /// Records a request that has been answered.
    pub fn record_request(
        &mut self,
        subdomain: &str,
        status: u16,
        latency_us: u64,
        bytes_in: u64,
        bytes_out: u64,
    )
        requires
            old(self).latencies.well_formed(),
        ensures
            final(self).latencies.well_formed(),
            final(self).total_requests == old(self).total_requests.wrapping_add(1),
            final(self).bytes_in == old(self).bytes_in.wrapping_add(bytes_in),
            final(self).bytes_out == old(self).bytes_out.wrapping_add(bytes_out),
            final(self).active_tunnels == old(self).active_tunnels,
            final(self).status_2xx == (if status / 100 == 2 {
                old(self).status_2xx.wrapping_add(1)
            } else {
                old(self).status_2xx
            }),
            final(self).status_3xx == (if status / 100 == 3 {
                old(self).status_3xx.wrapping_add(1)
            } else {
                old(self).status_3xx
            }),
            final(self).status_4xx == (if status / 100 == 4 {
                old(self).status_4xx.wrapping_add(1)
            } else {
                old(self).status_4xx
            }),
            final(self).status_5xx == (if status / 100 == 5 {
                old(self).status_5xx.wrapping_add(1)
            } else {
                old(self).status_5xx
            }),
            final(self).latencies.values@ == old(self).latencies.values@.update(
                old(self).latencies.pos as int,
                latency_us,
            ),
            final(self).latencies.pos == (old(self).latencies.pos + 1) % (old(
                self,
            ).latencies.values@.len() as int),
            final(self).latencies.count == old(self).latencies.count.wrapping_add(1),
            final(self).latencies.sum == old(self).latencies.sum.wrapping_add(latency_us),
            final(self).subdomain_metrics.has(subdomain@),
            old(self).subdomain_metrics.well_formed() ==> final(self).subdomain_metrics.well_formed(),
            final(self).subdomain_metrics.handle(subdomain@) == counted_request(
                if old(self).subdomain_metrics.has(subdomain@) {
                    old(self).subdomain_metrics.handle(subdomain@)
                } else {
                    SubdomainMetrics { requests: 0, errors: 0, bytes_in: 0, bytes_out: 0 }
                },
                status,
                bytes_in,
                bytes_out,
            ),
    {
        self.total_requests = self.total_requests.wrapping_add(1);
        self.bytes_in = self.bytes_in.wrapping_add(bytes_in);
        self.bytes_out = self.bytes_out.wrapping_add(bytes_out);
        let class = status / 100;
        if class == 2 {
            self.status_2xx = self.status_2xx.wrapping_add(1);
        } else if class == 3 {
            self.status_3xx = self.status_3xx.wrapping_add(1);
        } else if class == 4 {
            self.status_4xx = self.status_4xx.wrapping_add(1);
        } else if class == 5 {
            self.status_5xx = self.status_5xx.wrapping_add(1);
        }
        self.latencies.record(latency_us);
        let before = match self.subdomain_metrics.get(subdomain) {
            Some(m) => *m,
            None => SubdomainMetrics::default(),
        };
        let after = SubdomainMetrics {
            requests: before.requests.wrapping_add(1),
            errors: if status >= 400 {
                before.errors.wrapping_add(1)
            } else {
                before.errors
            },
            bytes_in: before.bytes_in.wrapping_add(bytes_in),
            bytes_out: before.bytes_out.wrapping_add(bytes_out),
        };
        let _ = self.subdomain_metrics.set(subdomain.to_owned(), after);
    }

    /// Counts a tunnel that was opened.
    pub fn tunnel_opened(&mut self)
        ensures
            final(self).active_tunnels == old(self).active_tunnels.wrapping_add(1),
            final(self).total_requests == old(self).total_requests,
    {
        self.active_tunnels = self.active_tunnels.wrapping_add(1);
    }

    /// Counts a tunnel that was closed.
    pub fn tunnel_closed(&mut self)
        ensures
            final(self).active_tunnels == old(self).active_tunnels.wrapping_sub(1),
            final(self).total_requests == old(self).total_requests,
    {
        self.active_tunnels = self.active_tunnels.wrapping_sub(1);
    }

    /// The exposition of the metrics, given the latencies at the
    /// percentiles 50, 95 and 99 and the mean latency.
    pub open spec fn exposition(&self, p50: u64, p95: u64, p99: u64, avg: u64) -> Seq<char> {
        let t0 = with_metric(
            Seq::empty(),
            "# HELP ztunnel_requests_total Total number of requests processed\n# TYPE ztunnel_requests_total counter\nztunnel_requests_total "@,
            self.total_requests,
        );
        let t1 = with_metric(
            t0,
            "\n\n# HELP ztunnel_active_tunnels Number of active tunnel connections\n# TYPE ztunnel_active_tunnels gauge\nztunnel_active_tunnels "@,
            self.active_tunnels,
        );
        let t2 = with_metric(
            t1,
            "\n\n# HELP ztunnel_requests_by_status Requests by HTTP status class\n# TYPE ztunnel_requests_by_status counter\nztunnel_requests_by_status{status=\"2xx\"} "@,
            self.status_2xx,
        );
        let t3 = with_metric(t2, "\nztunnel_requests_by_status{status=\"3xx\"} "@, self.status_3xx);
        let t4 = with_metric(t3, "\nztunnel_requests_by_status{status=\"4xx\"} "@, self.status_4xx);
        let t5 = with_metric(t4, "\nztunnel_requests_by_status{status=\"5xx\"} "@, self.status_5xx);
        let t6 = with_metric(
            t5,
            "\n\n# HELP ztunnel_bytes_total Total bytes transferred\n# TYPE ztunnel_bytes_total counter\nztunnel_bytes_total{direction=\"in\"} "@,
            self.bytes_in,
        );
        let t7 = with_metric(t6, "\nztunnel_bytes_total{direction=\"out\"} "@, self.bytes_out);
        let t8 = with_metric(
            t7,
            "\n\n# HELP ztunnel_latency_us Request latency in microseconds\n# TYPE ztunnel_latency_us summary\nztunnel_latency_us{quantile=\"0.5\"} "@,
            p50,
        );
        let t9 = with_metric(t8, "\nztunnel_latency_us{quantile=\"0.95\"} "@, p95);
        let t10 = with_metric(t9, "\nztunnel_latency_us{quantile=\"0.99\"} "@, p99);
        with_metric(t10, "\nztunnel_latency_us_avg "@, avg) + "\n"@
    }

    /// The metrics in the exposition format of Prometheus.
    pub fn to_prometheus(&self) -> (text: String)
        ensures
            exists|p50: u64, p95: u64, p99: u64|
                text@ == #[trigger] self.exposition(p50, p95, p99, self.latencies.mean()),
    {
        let p50 = self.latencies.percentile(50);
        let p95 = self.latencies.percentile(95);
        let p99 = self.latencies.percentile(99);
        let avg = self.latencies.average();
        let mut s = String::new();
        push_metric(
            &mut s,
            "# HELP ztunnel_requests_total Total number of requests processed\n# TYPE ztunnel_requests_total counter\nztunnel_requests_total ",
            self.total_requests,
        );
        push_metric(
            &mut s,
            "\n\n# HELP ztunnel_active_tunnels Number of active tunnel connections\n# TYPE ztunnel_active_tunnels gauge\nztunnel_active_tunnels ",
            self.active_tunnels,
        );
        push_metric(
            &mut s,
            "\n\n# HELP ztunnel_requests_by_status Requests by HTTP status class\n# TYPE ztunnel_requests_by_status counter\nztunnel_requests_by_status{status=\"2xx\"} ",
            self.status_2xx,
        );
        push_metric(&mut s, "\nztunnel_requests_by_status{status=\"3xx\"} ", self.status_3xx);
        push_metric(&mut s, "\nztunnel_requests_by_status{status=\"4xx\"} ", self.status_4xx);
        push_metric(&mut s, "\nztunnel_requests_by_status{status=\"5xx\"} ", self.status_5xx);
        push_metric(
            &mut s,
            "\n\n# HELP ztunnel_bytes_total Total bytes transferred\n# TYPE ztunnel_bytes_total counter\nztunnel_bytes_total{direction=\"in\"} ",
            self.bytes_in,
        );
        push_metric(&mut s, "\nztunnel_bytes_total{direction=\"out\"} ", self.bytes_out);
        push_metric(
            &mut s,
            "\n\n# HELP ztunnel_latency_us Request latency in microseconds\n# TYPE ztunnel_latency_us summary\nztunnel_latency_us{quantile=\"0.5\"} ",
            p50,
        );
        push_metric(&mut s, "\nztunnel_latency_us{quantile=\"0.95\"} ", p95);
        push_metric(&mut s, "\nztunnel_latency_us{quantile=\"0.99\"} ", p99);
        push_metric(&mut s, "\nztunnel_latency_us_avg ", avg);
        push_str(&mut s, "\n");
        assert(s@ == self.exposition(p50, p95, p99, avg));
        s
    }
}

} // verus!
