//! Activity selection and report assembly for the upstream fitness API, and
//! the Basic authorization header used when talking to it.

use vstd::prelude::*;
use vstd::utf8::encode_utf8;

use crate::activity::RunningActivitySummary;
use crate::digits::spec_decimal;
use crate::digits::u32_to_string;

verus! {

/// Connection settings for the upstream fitness API.
#[derive(Debug, Clone)]
pub struct FitbitApiConfig {
    pub base_url: String,
    pub client_id: String,
    pub client_secret: String,
}

/// One activity from the upstream list, newest first. The upstream reports
/// the distance as a decimal number of kilometers; it is carried here in
/// thousandths of a kilometer, which is exactly what the three-decimal
/// rendering downstream consumes.
pub struct Activity {
    pub log_id: u64,
    pub activity_name: String,
    pub activity_type_id: u32,
    pub start_time: String,
    /// Distance in thousandths of a kilometer, when the upstream reports one.
    pub distance_milli_km: Option<u64>,
    /// Duration in milliseconds.
    pub duration: u32,
    pub calories: u32,
}

/// Picks the most recent activity of the wanted category: the first element
/// of the (already newest-first) list whose name equals `category`, exactly
/// and case-sensitively. `None` when no activity matches.
pub fn select_latest(activities: &Vec<Activity>, category: &String) -> (r: Option<usize>)
    ensures
        match r {
            Option::Some(i) => i < activities@.len() && activities@[i as int].activity_name@
                == category@ && (forall|j: int|
                0 <= j < i ==> activities@[j].activity_name@ != category@),
            Option::None => forall|j: int|
                0 <= j < activities@.len() ==> activities@[j].activity_name@ != category@,
        },
{
    let n = activities.len();
    let mut i: usize = 0;
    while i < n
        invariant
            i <= n,
            n == activities@.len(),
            forall|j: int| 0 <= j < i ==> activities@[j].activity_name@ != category@,
        decreases n - i,
    {
        if activities[i].activity_name.eq(category) {
            return Some(i);
        }
        i = i + 1;
    }
    None
}

/// A split time rendered as minutes and seconds, `"7m30s"` style.
pub open spec fn spec_split_time(seconds: u32) -> Seq<char> {
    spec_decimal((seconds / 60) as nat) + "m"@ + spec_decimal((seconds % 60) as nat) + "s"@
}

/// Renders a split time in minutes and seconds.
pub fn format_split_time(seconds: u32) -> (r: String)
    ensures
        r@ == spec_split_time(seconds),
{
    let mut s = u32_to_string(seconds / 60);
    s.append("m");
    let sec = u32_to_string(seconds % 60);
    s.append(sec.as_str());
    s.append("s");
    proof {
        assert(s@ =~= spec_split_time(seconds));
    }
    s
}

fn clone_details(v: &Vec<(String, u32)>) -> (r: Vec<(String, u32)>)
    ensures
        r@ == v@,
{
    let n = v.len();
    let mut r: Vec<(String, u32)> = Vec::new();
    let mut i: usize = 0;
    while i < n
        invariant
            i <= n,
            n == v@.len(),
            r@ == v@.take(i as int),
        decreases n - i,
    {
        let s = v[i].0.clone();
        let c = v[i].1;
        r.push((s, c));
        proof {
            assert(r@ =~= v@.take(i + 1));
        }
        i = i + 1;
    }
    proof {
        assert(v@.take(n as int) =~= v@);
    }
    r
}

/// The report handed to rendering and posting: the activity's own figures
/// together with the computed summary, split times already rendered as
/// minute-and-second labels.
pub struct ActivityOutput {
    pub start_time: String,
    /// Distance in thousandths of a kilometer, when the upstream reports one.
    pub distance_milli_km: Option<u64>,
    /// Duration in milliseconds.
    pub duration: u32,
    pub split_times: Vec<String>,
    pub calories: u32,
    pub heart_rate_average: u32,
    pub heart_rate_max: u32,
    pub heart_rate_details: Vec<(String, u32)>,
}

impl ActivityOutput {
    /// Combines an activity with its computed summary into the final report.
    pub fn new(activity: &Activity, summary: &RunningActivitySummary) -> (r: Self)
        ensures
            r.start_time == activity.start_time,
            r.distance_milli_km == activity.distance_milli_km,
            r.duration == activity.duration,
            r.calories == activity.calories,
            r.heart_rate_average == summary.heart_rate_summary.average,
            r.heart_rate_max == summary.heart_rate_summary.max,
            r.heart_rate_details@ == summary.heart_rate_summary.details@,
            r.split_times@.len() == summary.split_time_summary@.len(),
            forall|i: int|
                0 <= i < r.split_times@.len() ==> (#[trigger] r.split_times@[i])@
                    == spec_split_time(summary.split_time_summary@[i]),
    {
        let n = summary.split_time_summary.len();
        let mut split_times: Vec<String> = Vec::new();
        let mut i: usize = 0;
        while i < n
            invariant
                i <= n,
                n == summary.split_time_summary@.len(),
                split_times@.len() == i,
                forall|j: int|
                    0 <= j < i ==> (#[trigger] split_times@[j])@ == spec_split_time(
                        summary.split_time_summary@[j],
                    ),
            decreases n - i,
        {
            split_times.push(format_split_time(summary.split_time_summary[i]));
            i = i + 1;
        }
        ActivityOutput {
            start_time: activity.start_time.clone(),
            distance_milli_km: activity.distance_milli_km,
            duration: activity.duration,
            split_times,
            calories: activity.calories,
            heart_rate_average: summary.heart_rate_summary.average,
            heart_rate_max: summary.heart_rate_summary.max,
            heart_rate_details: clone_details(&summary.heart_rate_summary.details),
        }
    }
}

/// The base64 rendering of a byte sequence under the standard alphabet with
/// padding.
pub uninterp spec fn base64_of(bytes: Seq<u8>) -> Seq<char>;

/// Relies on `base64`'s `Engine::encode` with the `general_purpose::STANDARD`
/// engine: the encoding is a pure function of the input bytes, four output
/// characters for every three input bytes, rounded up by `=` padding. The
/// input is bounded so that the padded length fits `usize` on any machine
/// (`encode` panics when it does not).
#[verifier::external_body]
fn base64_encode(bytes: &[u8]) -> (r: String)
    requires
        bytes@.len() <= 0x3000_0000,
    ensures
        r@ == base64_of(bytes@),
        r@.len() == 4 * ((bytes@.len() + 2) / 3),
{
    base64::Engine::encode(&base64::engine::general_purpose::STANDARD, bytes)
}

/// The HTTP Basic authorization value presented to the token endpoint:
/// `"Basic "` followed by the base64 encoding of `client_id:client_secret`.
/// The credential pair must be shorter than the encoder's input bound.
pub fn basic_auth_value(client_id: &String, client_secret: &String) -> (r: String)
    requires
        encode_utf8(client_id@ + ":"@ + client_secret@).len() <= 0x3000_0000,
    ensures
        r@ == "Basic "@ + base64_of(encode_utf8(client_id@ + ":"@ + client_secret@)),
{
    let mut joined = client_id.clone();
    joined.append(":");
    joined.append(client_secret.as_str());
    proof {
        assert(joined@ =~= client_id@ + ":"@ + client_secret@);
    }
    let encoded = base64_encode(joined.as_str().as_bytes());
    let mut r = String::from_str("Basic ");
    r.append(encoded.as_str());
    proof {
        assert(r@ =~= "Basic "@ + base64_of(encode_utf8(client_id@ + ":"@ + client_secret@)));
    }
    r
}

} // verus!
