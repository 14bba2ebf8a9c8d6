//! Aggregator: the componentwise arithmetic mean of a sample series.
//!
//! A required duration field is averaged over every sample. An optional field
//! is averaged only over the samples where it is present, and the mean is
//! itself absent when the field is present in none.

use vstd::arithmetic::div_mod::{lemma_div_by_multiple, lemma_div_is_ordered};
use vstd::prelude::*;

use crate::types::{series_view, MeasureResponse, SampleView};

verus! {

/// Sum of a required duration field over a series.
pub open spec fn sum_field(s: Seq<SampleView>, f: spec_fn(SampleView) -> u64) -> int
    decreases s.len(),
{
    if s.len() == 0 {
        0
    } else {
        sum_field(s.drop_last(), f) + f(s.last())
    }
}

/// Sum of an optional duration field over the samples where it is present.
pub open spec fn sum_opt_field(s: Seq<SampleView>, f: spec_fn(SampleView) -> Option<u64>) -> int
    decreases s.len(),
{
    if s.len() == 0 {
        0
    } else {
        sum_opt_field(s.drop_last(), f) + match f(s.last()) {
            Some(v) => v as int,
            None => 0,
        }
    }
}

/// How many samples carry an optional duration field.
pub open spec fn count_opt_field(s: Seq<SampleView>, f: spec_fn(SampleView) -> Option<u64>) -> int
    decreases s.len(),
{
    if s.len() == 0 {
        0
    } else {
        count_opt_field(s.drop_last(), f) + match f(s.last()) {
            Some(_) => 1int,
            None => 0int,
        }
    }
}


/// Named field selectors, so that every statement about a componentwise sum
/// speaks of one and the same function.
pub open spec fn tcp_of() -> spec_fn(SampleView) -> u64 {
    |v: SampleView| v.tcp_connect_duration
}

pub open spec fn send_of() -> spec_fn(SampleView) -> u64 {
    |v: SampleView| v.http_get_send_duration
}

pub open spec fn ttfb_of() -> spec_fn(SampleView) -> u64 {
    |v: SampleView| v.ttfb_duration
}

pub open spec fn dns_of() -> spec_fn(SampleView) -> Option<u64> {
    |v: SampleView| v.dns_lookup_duration
}

pub open spec fn tls_of() -> spec_fn(SampleView) -> Option<u64> {
    |v: SampleView| v.tls_handshake_duration
}

pub open spec fn overall_of() -> spec_fn(SampleView) -> Option<u64> {
    |v: SampleView| v.overall_duration
}

/// Mean of a required field: the floor of sum over length.
pub open spec fn mean_field(s: Seq<SampleView>, f: spec_fn(SampleView) -> u64) -> int {
    sum_field(s, f) / s.len() as int
}

/// Mean of an optional field over the samples where it is present; absent
/// when it is present in none.
pub open spec fn mean_opt_field(s: Seq<SampleView>, f: spec_fn(SampleView) -> Option<u64>) -> Option<
    int,
> {
    if count_opt_field(s, f) == 0 {
        None
    } else {
        Some(sum_opt_field(s, f) / count_opt_field(s, f))
    }
}

/// The componentwise mean of a non-empty series. The source ip is not a
/// number; the first sample's ip stands for the series.
pub open spec fn average_view(s: Seq<SampleView>) -> SampleView {
    SampleView {
        ip: s[0].ip,
        dns_lookup_duration: match mean_opt_field(s, dns_of()) {
            Some(m) => Some(m as u64),
            None => None,
        },
        tcp_connect_duration: mean_field(s, tcp_of()) as u64,
        http_get_send_duration: mean_field(s, send_of()) as u64,
        ttfb_duration: mean_field(s, ttfb_of()) as u64,
        tls_handshake_duration: match mean_opt_field(s, tls_of()) {
            Some(m) => Some(m as u64),
            None => None,
        },
        overall_duration: match mean_opt_field(s, overall_of()) {
            Some(m) => Some(m as u64),
            None => None,
        },
    }
}

/// One more summand raises the bound by one multiple.
proof fn lemma_bound_step(c: int)
    ensures
        c * (u64::MAX as int) + (u64::MAX as int) == (c + 1) * (u64::MAX as int),
{
    assert(c * (u64::MAX as int) + (u64::MAX as int) == (c + 1) * (u64::MAX as int))
        by (nonlinear_arith);
}

/// A mean of u64 values fits in u64.
proof fn lemma_mean_fits(sum: int, cnt: int)
    requires
        0 < cnt,
        0 <= sum <= cnt * (u64::MAX as int),
    ensures
        0 <= sum / cnt <= u64::MAX,
{
    lemma_div_is_ordered(sum, cnt * (u64::MAX as int), cnt);
    lemma_div_by_multiple(u64::MAX as int, cnt);
    vstd::arithmetic::div_mod::lemma_div_pos_is_pos(sum, cnt);
}

/// Componentwise mean of a non-empty series, as `average_view` states it.
pub fn average(series: &Vec<MeasureResponse>) -> (r: MeasureResponse)
    requires
        series@.len() > 0,
    ensures
        r@ == average_view(series_view(series@)),
{
    let ghost sv = series_view(series@);
    let len = series.len();
    let mut sum_tcp: u128 = 0;
    let mut sum_send: u128 = 0;
    let mut sum_ttfb: u128 = 0;
    let mut sum_dns: u128 = 0;
    let mut cnt_dns: usize = 0;
    let mut sum_tls: u128 = 0;
    let mut cnt_tls: usize = 0;
    let mut sum_overall: u128 = 0;
    let mut cnt_overall: usize = 0;
    let mut i: usize = 0;
    while i < len
        invariant
            len == series@.len(),
            sv == series_view(series@),
            0 <= i <= len,
            sum_tcp as int == sum_field(sv.subrange(0, i as int), tcp_of()),
            sum_send as int == sum_field(sv.subrange(0, i as int), send_of()),
            sum_ttfb as int == sum_field(sv.subrange(0, i as int), ttfb_of()),
            sum_dns as int == sum_opt_field(sv.subrange(0, i as int), dns_of()),
            cnt_dns as int == count_opt_field(sv.subrange(0, i as int), dns_of()),
            sum_tls as int == sum_opt_field(sv.subrange(0, i as int), tls_of()),
            cnt_tls as int == count_opt_field(sv.subrange(0, i as int), tls_of()),
            sum_overall as int == sum_opt_field(sv.subrange(0, i as int), overall_of()),
            cnt_overall as int == count_opt_field(sv.subrange(0, i as int), overall_of()),
            sum_tcp <= i as u128 * u64::MAX as u128,
            sum_send <= i as u128 * u64::MAX as u128,
            sum_ttfb <= i as u128 * u64::MAX as u128,
            sum_dns <= cnt_dns as u128 * u64::MAX as u128,
            sum_tls <= cnt_tls as u128 * u64::MAX as u128,
            sum_overall <= cnt_overall as u128 * u64::MAX as u128,
            cnt_dns <= i,
            cnt_tls <= i,
            cnt_overall <= i,
        decreases len - i,
    {
        let s = &series[i];
        proof {
            assert(sv.subrange(0, i + 1).drop_last() =~= sv.subrange(0, i as int));
            assert(sv.subrange(0, i + 1).last() == series@[i as int]@);
            lemma_bound_step(i as int);
            lemma_bound_step(cnt_dns as int);
            lemma_bound_step(cnt_tls as int);
            lemma_bound_step(cnt_overall as int);
        }
        sum_tcp = sum_tcp + s.tcp_connect_duration as u128;
        sum_send = sum_send + s.http_get_send_duration as u128;
        sum_ttfb = sum_ttfb + s.ttfb_duration as u128;
        match s.dns_lookup_duration {
            Some(v) => {
                sum_dns = sum_dns + v as u128;
                cnt_dns = cnt_dns + 1;
            },
            None => {},
        }
        match s.tls_handshake_duration {
            Some(v) => {
                sum_tls = sum_tls + v as u128;
                cnt_tls = cnt_tls + 1;
            },
            None => {},
        }
        match s.overall_duration {
            Some(v) => {
                sum_overall = sum_overall + v as u128;
                cnt_overall = cnt_overall + 1;
            },
            None => {},
        }
        i = i + 1;
    }
    proof {
        assert(sv.subrange(0, len as int) =~= sv);
        lemma_mean_fits(sum_tcp as int, len as int);
        lemma_mean_fits(sum_send as int, len as int);
        lemma_mean_fits(sum_ttfb as int, len as int);
        if cnt_dns > 0 {
            lemma_mean_fits(sum_dns as int, cnt_dns as int);
        }
        if cnt_tls > 0 {
            lemma_mean_fits(sum_tls as int, cnt_tls as int);
        }
        if cnt_overall > 0 {
            lemma_mean_fits(sum_overall as int, cnt_overall as int);
        }
    }
    MeasureResponse {
        ip: series[0].ip.clone(),
        dns_lookup_duration: if cnt_dns > 0 {
            Some((sum_dns / cnt_dns as u128) as u64)
        } else {
            None
        },
        tcp_connect_duration: (sum_tcp / len as u128) as u64,
        http_get_send_duration: (sum_send / len as u128) as u64,
        ttfb_duration: (sum_ttfb / len as u128) as u64,
        tls_handshake_duration: if cnt_tls > 0 {
            Some((sum_tls / cnt_tls as u128) as u64)
        } else {
            None
        },
        overall_duration: if cnt_overall > 0 {
            Some((sum_overall / cnt_overall as u128) as u64)
        } else {
            None
        },
    }
}

/// Distributing one factor over a sum of multiples.
proof fn lemma_mul_step(n: int, x: int)
    ensures
        n * x + x == (n + 1) * x,
{
    assert(n * x + x == (n + 1) * x) by (nonlinear_arith);
}

/// Sum of a required field over a constant series.
proof fn lemma_sum_field_constant(s: Seq<SampleView>, x: SampleView, f: spec_fn(SampleView) -> u64)
    requires
        forall|i: int| 0 <= i < s.len() ==> #[trigger] s[i] == x,
    ensures
        sum_field(s, f) == s.len() * (f(x) as int),
    decreases s.len(),
{
    if s.len() > 0 {
        assert(forall|i: int| 0 <= i < s.drop_last().len() ==> #[trigger] s.drop_last()[i] == x);
        lemma_sum_field_constant(s.drop_last(), x, f);
        assert(s.last() == x);
        lemma_mul_step(s.len() - 1, f(x) as int);
    }
}

/// Sum and count of an optional field over a constant series.
proof fn lemma_sum_opt_field_constant(s: Seq<SampleView>, x: SampleView, f: spec_fn(SampleView) -> Option<u64>)
    requires
        forall|i: int| 0 <= i < s.len() ==> #[trigger] s[i] == x,
    ensures
        f(x) is Some ==> count_opt_field(s, f) == s.len() && sum_opt_field(s, f) == s.len() * (
        f(x).unwrap() as int),
        f(x) is None ==> count_opt_field(s, f) == 0 && sum_opt_field(s, f) == 0,
    decreases s.len(),
{
    if s.len() > 0 {
        assert(forall|i: int| 0 <= i < s.drop_last().len() ==> #[trigger] s.drop_last()[i] == x);
        lemma_sum_opt_field_constant(s.drop_last(), x, f);
        assert(s.last() == x);
        if f(x) is Some {
            lemma_mul_step(s.len() - 1, f(x).unwrap() as int);
        }
    }
}

/// The mean of a required field over a constant series is that field.
proof fn lemma_mean_field_constant(s: Seq<SampleView>, x: SampleView, f: spec_fn(SampleView) -> u64)
    requires
        s.len() > 0,
        forall|i: int| 0 <= i < s.len() ==> #[trigger] s[i] == x,
    ensures
        mean_field(s, f) == f(x) as int,
{
    lemma_sum_field_constant(s, x, f);
    lemma_div_by_multiple(f(x) as int, s.len() as int);
}

/// The mean of an optional field over a constant series is that field,
/// present or absent as it stands in the samples.
proof fn lemma_mean_opt_field_constant(
    s: Seq<SampleView>,
    x: SampleView,
    f: spec_fn(SampleView) -> Option<u64>,
)
    requires
        s.len() > 0,
        forall|i: int| 0 <= i < s.len() ==> #[trigger] s[i] == x,
    ensures
        f(x) matches Some(v) ==> mean_opt_field(s, f) == Some(v as int),
        f(x) is None ==> mean_opt_field(s, f) is None,
{
    lemma_sum_opt_field_constant(s, x, f);
    match f(x) {
        Some(v) => lemma_div_by_multiple(v as int, s.len() as int),
        None => {},
    }
}

/// Averaging a series whose samples are all the same sample reproduces that
/// sample exactly.
pub proof fn lemma_average_idempotent(s: Seq<SampleView>)
    requires
        s.len() > 0,
        forall|i: int| 0 <= i < s.len() ==> #[trigger] s[i] == s[0],
    ensures
        average_view(s) == s[0],
{
    lemma_mean_field_constant(s, s[0], tcp_of());
    lemma_mean_field_constant(s, s[0], send_of());
    lemma_mean_field_constant(s, s[0], ttfb_of());
    lemma_mean_opt_field_constant(s, s[0], dns_of());
    lemma_mean_opt_field_constant(s, s[0], tls_of());
    lemma_mean_opt_field_constant(s, s[0], overall_of());
    assert(tcp_of()(s[0]) == s[0].tcp_connect_duration);
    assert(send_of()(s[0]) == s[0].http_get_send_duration);
    assert(ttfb_of()(s[0]) == s[0].ttfb_duration);
    assert(dns_of()(s[0]) == s[0].dns_lookup_duration);
    assert(tls_of()(s[0]) == s[0].tls_handshake_duration);
    assert(overall_of()(s[0]) == s[0].overall_duration);
    assert(average_view(s) =~= s[0]);
}

} // verus!
