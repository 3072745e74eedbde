use vstd::prelude::*;

verus! {

/// The largest number of decimal places a value is ever shown with.
pub const MAX_DECIMALS: usize = 16;

/// How close, in multiples of the 32-bit machine epsilon, a re-parsed value must
/// come to the original, both narrowed to 32 bits, for a rendering to round-trip.
pub const ROUND_TRIP_TOLERANCE_EPSILONS: u32 = 16;

/// The upper end of a decimal range once it is held to [`MAX_DECIMALS`].
pub open spec fn clamped_max(max_decimals: usize) -> usize {
    if max_decimals <= MAX_DECIMALS {
        max_decimals
    } else {
        MAX_DECIMALS
    }
}

/// The lower end of a decimal range once it is held to the clamped upper end.
pub open spec fn clamped_min(min_decimals: usize, max_decimals: usize) -> usize {
    if min_decimals <= clamped_max(max_decimals) {
        min_decimals
    } else {
        clamped_max(max_decimals)
    }
}

/// Clamps a requested `(min, max)` decimal range: `max` is lowered to
/// [`MAX_DECIMALS`], then `min` is lowered to `max`. Never fails.
pub fn clamp_decimal_range(decimal_range: (usize, usize)) -> (r: (usize, usize))
    ensures
        r.0 == clamped_min(decimal_range.0, decimal_range.1),
        r.1 == clamped_max(decimal_range.1),
        r.0 <= r.1 <= MAX_DECIMALS,
{
    let (min_decimals, max_decimals) = decimal_range;
    let max_decimals = if max_decimals <= MAX_DECIMALS {
        max_decimals
    } else {
        MAX_DECIMALS
    };
    let min_decimals = if min_decimals <= max_decimals {
        min_decimals
    } else {
        max_decimals
    };
    (min_decimals, max_decimals)
}

/// Some rendering with `decimals` places was produced and judged not to round-trip.
pub open spec fn rejected<R, P>(render: R, round_trips: P, decimals: usize) -> bool where
    R: Fn(usize) -> String,
    P: Fn(&String) -> bool,
{
    exists|text: String| #[trigger]
        render.ensures((decimals,), text) && round_trips.ensures((&text,), false)
}

/// `text`, rendered with `decimals` places, is what the search over `lo..=hi` settles on:
/// every shorter candidate was rejected, and the text either round-trips or is the
/// rendering with the full `hi` places.
pub open spec fn settles_on<R, P>(
    lo: usize,
    hi: usize,
    render: R,
    round_trips: P,
    decimals: usize,
    text: String,
) -> bool where R: Fn(usize) -> String, P: Fn(&String) -> bool {
    &&& lo <= decimals <= hi
    &&& render.ensures((decimals,), text)
    &&& decimals < hi ==> round_trips.ensures((&text,), true)
    &&& forall|e: usize| lo <= e < decimals ==> #[trigger] rejected(render, round_trips, e)
}

/// `text` is what formatting with `decimal_range` gives, for the value that `render`
/// renders and `round_trips` judges.
pub open spec fn formats_to<R, P>(
    decimal_range: (usize, usize),
    render: R,
    round_trips: P,
    text: String,
) -> bool where R: Fn(usize) -> String, P: Fn(&String) -> bool {
    exists|d: usize|
        #[trigger] settles_on(
            clamped_min(decimal_range.0, decimal_range.1),
            clamped_max(decimal_range.1),
            render,
            round_trips,
            d,
            text,
        )
}

/// Formats a value with as few decimal places as the range allows while it still
/// round-trips. The range is clamped first (see [`clamp_decimal_range`]). Each count
/// from `min` up to, but not including, `max` is rendered in turn and the first
/// rendering that `round_trips` accepts is returned; when none is accepted, or the
/// range holds a single count, the rendering with `max` places is returned.
///
/// `render(d)` renders the value with exactly `d` decimal places, and
/// `round_trips(text)` tells whether `text` parses back to the value.
pub fn format_with_decimals_in_range<R, P>(
    decimal_range: (usize, usize),
    render: R,
    round_trips: P,
) -> (text: String) where R: Fn(usize) -> String, P: Fn(&String) -> bool
    requires
        forall|d: usize| d <= MAX_DECIMALS ==> #[trigger] render.requires((d,)),
        forall|t: &String| #[trigger] round_trips.requires((t,)),
    ensures
        formats_to(decimal_range, render, round_trips, text),
{
    let (lo, hi) = clamp_decimal_range(decimal_range);
    let mut decimals: usize = lo;
    while decimals < hi
        invariant
            lo <= decimals <= hi,
            hi <= MAX_DECIMALS,
            lo == clamped_min(decimal_range.0, decimal_range.1),
            hi == clamped_max(decimal_range.1),
            forall|d: usize| d <= MAX_DECIMALS ==> #[trigger] render.requires((d,)),
            forall|t: &String| #[trigger] round_trips.requires((t,)),
            forall|e: usize| lo <= e < decimals ==> #[trigger] rejected(render, round_trips, e),
        decreases hi - decimals,
    {
        let text = render(decimals);
        if round_trips(&text) {
            assert(settles_on(lo, hi, render, round_trips, decimals, text));
            return text;
        }
        assert(rejected(render, round_trips, decimals));
        decimals = decimals + 1;
    }
    let text = render(hi);
    assert(settles_on(lo, hi, render, round_trips, hi, text));
    text
}

/// `render` gives a single text for each decimal count.
pub open spec fn renders_deterministically<R>(render: R) -> bool where R: Fn(usize) -> String {
    forall|d: usize, a: String, b: String|
        #[trigger] render.ensures((d,), a) && #[trigger] render.ensures((d,), b) ==> a == b
}

/// `round_trips` gives a single verdict for each text.
pub open spec fn judges_deterministically<P>(round_trips: P) -> bool where P: Fn(&String) -> bool {
    forall|t: String, a: bool, b: bool|
        #[trigger] round_trips.ensures((&t,), a) && #[trigger] round_trips.ensures((&t,), b)
            ==> a == b
}

/// The rendering with `decimals` places round-trips.
pub open spec fn accepted<R, P>(render: R, round_trips: P, decimals: usize) -> bool where
    R: Fn(usize) -> String,
    P: Fn(&String) -> bool,
{
    exists|text: String| #[trigger]
        render.ensures((decimals,), text) && round_trips.ensures((&text,), true)
}

/// For a range with `min <= max <= MAX_DECIMALS`, the formatted text either
/// round-trips, or it is the rendering with exactly `max` decimal places.
pub proof fn lemma_round_trips_or_full_precision<R, P>(
    decimal_range: (usize, usize),
    render: R,
    round_trips: P,
    text: String,
) where R: Fn(usize) -> String, P: Fn(&String) -> bool
    requires
        decimal_range.0 <= decimal_range.1 <= MAX_DECIMALS,
        formats_to(decimal_range, render, round_trips, text),
    ensures
        round_trips.ensures((&text,), true) || render.ensures((decimal_range.1,), text),
{
    let d = choose|d: usize|
        #[trigger] settles_on(
            clamped_min(decimal_range.0, decimal_range.1),
            clamped_max(decimal_range.1),
            render,
            round_trips,
            d,
            text,
        );
}

/// When the rendering with some count `d` of the clamped range, other than its
/// upper end, round-trips, the formatted text is the rendering with the fewest
/// decimal places that round-trips, and that count is at most `d`.
pub proof fn lemma_fewest_decimals<R, P>(
    decimal_range: (usize, usize),
    render: R,
    round_trips: P,
    text: String,
    d: usize,
) where R: Fn(usize) -> String, P: Fn(&String) -> bool
    requires
        renders_deterministically(render),
        judges_deterministically(round_trips),
        formats_to(decimal_range, render, round_trips, text),
        clamped_min(decimal_range.0, decimal_range.1) <= d < clamped_max(decimal_range.1),
        accepted(render, round_trips, d),
    ensures
        exists|c: usize|
            c <= d && #[trigger] render.ensures((c,), text) && accepted(render, round_trips, c)
                && forall|e: usize|
                clamped_min(decimal_range.0, decimal_range.1) <= e < c ==> !#[trigger] accepted(
                    render,
                    round_trips,
                    e,
                ),
{
    let lo = clamped_min(decimal_range.0, decimal_range.1);
    let hi = clamped_max(decimal_range.1);
    let c = choose|c: usize| #[trigger] settles_on(lo, hi, render, round_trips, c, text);
    assert forall|e: usize| lo <= e < c implies !#[trigger] accepted(render, round_trips, e) by {
        if accepted(render, round_trips, e) {
            let u = choose|u: String|
                #[trigger] render.ensures((e,), u) && round_trips.ensures((&u,), true);
            lemma_accepted_not_rejected(render, round_trips, e, u);
        }
    }
    if d < c {
        assert(!accepted(render, round_trips, d));
    }
    assert(accepted(render, round_trips, c));
}

/// The formatted text is a rendering with a decimal count inside the clamped
/// range; for a range with `min <= max <= MAX_DECIMALS` that is `min..=max` itself.
pub proof fn lemma_decimal_count_in_range<R, P>(
    decimal_range: (usize, usize),
    render: R,
    round_trips: P,
    text: String,
) where R: Fn(usize) -> String, P: Fn(&String) -> bool
    requires
        formats_to(decimal_range, render, round_trips, text),
    ensures
        exists|c: usize|
            clamped_min(decimal_range.0, decimal_range.1) <= c <= clamped_max(decimal_range.1)
                && #[trigger] render.ensures((c,), text),
        decimal_range.0 <= decimal_range.1 <= MAX_DECIMALS ==> clamped_min(
            decimal_range.0,
            decimal_range.1,
        ) == decimal_range.0 && clamped_max(decimal_range.1) == decimal_range.1,
{
    let c = choose|c: usize|
        #[trigger] settles_on(
            clamped_min(decimal_range.0, decimal_range.1),
            clamped_max(decimal_range.1),
            render,
            round_trips,
            c,
            text,
        );
    assert(render.ensures((c,), text));
}

/// Formatting is a function of its inputs: with the same range, and collaborators
/// that each give a single answer per input, two formatted texts are equal.
pub proof fn lemma_same_inputs_same_text<R, P>(
    decimal_range: (usize, usize),
    render: R,
    round_trips: P,
    a: String,
    b: String,
) where R: Fn(usize) -> String, P: Fn(&String) -> bool
    requires
        renders_deterministically(render),
        judges_deterministically(round_trips),
        formats_to(decimal_range, render, round_trips, a),
        formats_to(decimal_range, render, round_trips, b),
    ensures
        a == b,
{
    let lo = clamped_min(decimal_range.0, decimal_range.1);
    let hi = clamped_max(decimal_range.1);
    let i = choose|i: usize| #[trigger] settles_on(lo, hi, render, round_trips, i, a);
    let j = choose|j: usize| #[trigger] settles_on(lo, hi, render, round_trips, j, b);
    if i < j {
        lemma_accepted_not_rejected(render, round_trips, i, a);
    } else if j < i {
        lemma_accepted_not_rejected(render, round_trips, j, b);
    }
}

/// A count whose rendering round-trips cannot also have been rejected, when the
/// collaborators each give a single answer per input.
proof fn lemma_accepted_not_rejected<R, P>(render: R, round_trips: P, d: usize, text: String) where
    R: Fn(usize) -> String,
    P: Fn(&String) -> bool,
    requires
        renders_deterministically(render),
        judges_deterministically(round_trips),
        render.ensures((d,), text),
        round_trips.ensures((&text,), true),
    ensures
        !rejected(render, round_trips, d),
{
    if rejected(render, round_trips, d) {
        let t = choose|t: String|
            #[trigger] render.ensures((d,), t) && round_trips.ensures((&t,), false);
        assert(t == text);
    }
}

} // verus!
