//! What holds of the cards that the measuring modules show.
use crate::modules::card::{blocks, meter_tone, Line, Tone};
use crate::modules::sampled::Measured;
use crate::modules::{cpu, gpu, memory};
use crate::number::decimal;
use vstd::prelude::*;

verus! {

/// Whether a card has a field of that label with that value.
pub open spec fn says(card: Seq<Vec<Line>>, label: Seq<char>, value: Seq<char>) -> bool {
    exists|b: int, l: int|
        0 <= b < card.len() && 0 <= l < card[b]@.len() && is_field(
            #[trigger] card[b]@[l],
            label,
            value,
        )
}

/// Whether a line is a field of that label with that value.
pub open spec fn is_field(line: Line, label: Seq<char>, value: Seq<char>) -> bool {
    line matches Line::Field { label: l, value: v, .. } && l@ == label && v@ == value
}

/// Whether a card is headed by that name and value.
pub open spec fn is_headed(
    card: Seq<Vec<Line>>,
    name: Seq<char>,
    value: Seq<char>,
    tone: Tone,
) -> bool {
    card.len() > 0 && card[0]@.len() > 0 && (card[0]@[0] matches Line::Title {
        name: n,
        value: v,
        tone: t,
    } && n@ == name && v@ == value && t == tone)
}

/// Whether a card has a line for that process.
pub open spec fn lists(card: Seq<Vec<Line>>, pid: u32, name: Seq<char>, value: Seq<char>) -> bool {
    exists|b: int, l: int|
        0 <= b < card.len() && 0 <= l < card[b]@.len() && is_process(
            #[trigger] card[b]@[l],
            pid,
            name,
            value,
        )
}

/// Whether a line is of that process.
pub open spec fn is_process(line: Line, pid: u32, name: Seq<char>, value: Seq<char>) -> bool {
    line matches Line::Process { pid: p, name: n, value: v, .. } && p == pid && n@ == name && v@
        == value
}

/// The line in its place is what was put there.
proof fn lemma_at(card: Seq<Vec<Line>>, b: int, l: int)
    requires
        0 <= b < card.len(),
        0 <= l < card[b]@.len(),
    ensures
        blocks(card).len() == card.len(),
        blocks(card)[b].len() == card[b]@.len(),
        blocks(card)[b][l] == card[b]@[l]@,
{
}

proof fn lemma_lengths(card: Seq<Vec<Line>>)
    ensures
        blocks(card).len() == card.len(),
        forall|b: int|
            0 <= b < card.len() ==> (#[trigger] blocks(card)[b]).len() == card[b]@.len(),
{
}

/// A meter is calm in its own colour, and warns in the colour of its tier.
pub proof fn law_meters_warn_by_their_tier(tier: u8, calm: Tone)
    ensures
        tier == 0 ==> meter_tone(tier, calm) == calm,
        tier > 0 ==> meter_tone(tier, calm) == Tone::Tier(tier),
{
}

/// The memory card says each figure under its own label.
pub proof fn law_the_memory_card_says_its_figures(s: memory::Sample, card: Seq<Vec<Line>>)
    requires
        blocks(card) == s.shows(),
    ensures
        is_headed(
            card,
            s.used@ + " GiB of "@ + s.total@ + " GiB"@,
            s.percent.shown@ + "%"@,
            Tone::Tier(memory::tier_of(s.percent.order)),
        ),
        says(card, "available"@, s.available@ + " GiB"@),
        says(card, "page cache"@, s.cached@ + " GiB"@),
        s.info.swap_total_kib == 0 ==> says(card, "swap"@, "none"@),
        s.info.swap_total_kib > 0 ==> says(
            card,
            "swap"@,
            s.swap_used@ + " / "@ + s.swap_total@ + " GiB"@,
        ),
        forall|i: int|
            0 <= i < s.processes@.len() ==> lists(
                card,
                (#[trigger] s.processes@[i]).pid,
                s.processes@[i].name@,
                s.processes@[i].held@ + " MiB"@,
            ),
{
    lemma_lengths(card);
    let shown = s.shows();
    assert(shown.len() >= 2 && shown[0].len() == 2 && shown[1].len() == 4);
    assert(blocks(card)[0].len() == card[0]@.len());
    assert(blocks(card)[1].len() == card[1]@.len());
    lemma_at(card, 0, 0);
    lemma_at(card, 1, 1);
    lemma_at(card, 1, 2);
    lemma_at(card, 1, 3);
    assert(is_field(card[1]@[1], "available"@, s.available@ + " GiB"@));
    assert(is_field(card[1]@[2], "page cache"@, s.cached@ + " GiB"@));
    assert(card[1]@[3] is Field);
    if s.info.swap_total_kib == 0 {
        assert(is_field(card[1]@[3], "swap"@, "none"@));
    } else {
        assert(is_field(card[1]@[3], "swap"@, s.swap_used@ + " / "@ + s.swap_total@ + " GiB"@));
    }
    assert forall|i: int| 0 <= i < s.processes@.len() implies lists(
        card,
        (#[trigger] s.processes@[i]).pid,
        s.processes@[i].name@,
        s.processes@[i].held@ + " MiB"@,
    ) by {
        lemma_memory_lines(s.processes@, i);
        assert(shown.len() == 3);
        assert(shown[2].len() == 1 + memory::process_lines(s.processes@).len());
        assert(blocks(card)[2].len() == card[2]@.len());
        lemma_at(card, 2, 1 + 2 * i);
        assert(shown[2][1 + 2 * i] == memory::process_lines(s.processes@)[2 * i]);
        assert(is_process(
            card[2]@[1 + 2 * i],
            s.processes@[i].pid,
            s.processes@[i].name@,
            s.processes@[i].held@ + " MiB"@,
        ));
    }
}

proof fn lemma_memory_lines(list: Seq<memory::Process>, i: int)
    requires
        0 <= i < list.len(),
    ensures
        memory::process_lines(list).len() == 2 * list.len(),
        memory::process_lines(list)[2 * i] == memory::process_line(list[i]),
    decreases list.len(),
{
    let before = list.drop_last();
    if i < before.len() {
        lemma_memory_lines(before, i);
        assert(before[i] == list[i]);
    } else if before.len() > 0 {
        lemma_memory_lines(before, 0);
    } else {
        assert(memory::process_lines(before).len() == 0);
    }
}

/// The graphics card's card says each reading under its own label.
pub proof fn law_the_graphics_card_says_its_readings(s: gpu::Sample, card: Seq<Vec<Line>>)
    requires
        blocks(card) == s.shows(),
    ensures
        card.len() > 0 && card[0]@.len() > 0 && card[0]@[0] is Title,
        says(card, "utilization"@, decimal(s.gpu_percent as nat) + "%"@),
        says(card, "vram"@, s.vram_used@ + " / "@ + s.vram_total@ + " GiB"@),
        s.detail matches Some(d) ==> {
            &&& says(card, "memory bus"@, decimal(d.memory_percent as nat) + "%"@)
            &&& d.power matches Some(power) ==> (match d.power_limit {
                Some(limit) => says(card, "power"@, power@ + " / "@ + limit@ + " W"@),
                None => says(card, "power"@, power@ + " W"@),
            })
            &&& d.sm_mhz matches Some(mhz) ==> says(
                card,
                "sm clock"@,
                gpu::clock_text(mhz, d.sm_max_mhz),
            )
            &&& d.mem_mhz matches Some(mhz) ==> says(
                card,
                "mem clock"@,
                gpu::clock_text(mhz, d.mem_max_mhz),
            )
            &&& d.fan_percent matches Some(fan) ==> says(
                card,
                "fan"@,
                decimal(fan as nat) + "%"@,
            )
            &&& forall|i: int|
                0 <= i < d.processes@.len() ==> lists(
                    card,
                    (#[trigger] d.processes@[i]).pid,
                    d.processes@[i].name@,
                    match d.processes@[i].held {
                        Some(held) => held@ + " MiB"@,
                        None => "—"@,
                    },
                )
        },
{
    lemma_lengths(card);
    let shown = s.shows();
    assert(shown.len() >= 2 && shown[0].len() == 1);
    assert(shown[1] == gpu::usage_block(s));
    assert(blocks(card)[0].len() == card[0]@.len());
    assert(blocks(card)[1].len() == card[1]@.len());
    lemma_at(card, 0, 0);
    lemma_at(card, 1, 1);
    lemma_at(card, 1, 3);
    assert(is_field(card[1]@[1], "utilization"@, decimal(s.gpu_percent as nat) + "%"@));
    assert(is_field(card[1]@[3], "vram"@, s.vram_used@ + " / "@ + s.vram_total@ + " GiB"@));
    match s.detail {
        Some(d) => {
            let power = gpu::power_lines(d);
            let bus = 5 + power.len() as int;
            assert(shown[1].len() == bus + 1);
            lemma_at(card, 1, bus);
            assert(is_field(card[1]@[bus], "memory bus"@, decimal(d.memory_percent as nat) + "%"@));
            match d.power {
                Some(watts) => {
                    lemma_at(card, 1, 5);
                    assert(shown[1][5] == power[0]);
                    match d.power_limit {
                        Some(limit) => {
                            assert(is_field(
                                card[1]@[5],
                                "power"@,
                                watts@ + " / "@ + limit@ + " W"@,
                            ));
                        },
                        None => {
                            assert(is_field(card[1]@[5], "power"@, watts@ + " W"@));
                        },
                    }
                },
                None => {},
            }
            let clocked = d.sm_mhz is Some || d.mem_mhz is Some;
            let fan_at = if clocked {
                3int
            } else {
                2
            };
            let last = if d.fan_percent is Some {
                fan_at + 1
            } else {
                fan_at
            };
            assert(shown.len() == last + 1);
            if clocked {
                assert(shown[2] == gpu::clocks_block(d));
                assert(blocks(card)[2].len() == card[2]@.len());
                match d.sm_mhz {
                    Some(mhz) => {
                        lemma_at(card, 2, 1);
                        assert(is_field(
                            card[2]@[1],
                            "sm clock"@,
                            gpu::clock_text(mhz, d.sm_max_mhz),
                        ));
                    },
                    None => {},
                }
                match d.mem_mhz {
                    Some(mhz) => {
                        let at = if d.sm_mhz is Some {
                            2int
                        } else {
                            1
                        };
                        lemma_at(card, 2, at);
                        assert(is_field(
                            card[2]@[at],
                            "mem clock"@,
                            gpu::clock_text(mhz, d.mem_max_mhz),
                        ));
                    },
                    None => {},
                }
            }
            match d.fan_percent {
                Some(fan) => {
                    assert(shown[fan_at] == gpu::cooling_block(fan));
                    assert(blocks(card)[fan_at].len() == card[fan_at]@.len());
                    lemma_at(card, fan_at, 1);
                    assert(is_field(card[fan_at]@[1], "fan"@, decimal(fan as nat) + "%"@));
                },
                None => {},
            }
            assert(shown[last] == gpu::processes_block(d.processes@));
            assert(blocks(card)[last].len() == card[last]@.len());
            assert forall|i: int| 0 <= i < d.processes@.len() implies lists(
                card,
                (#[trigger] d.processes@[i]).pid,
                d.processes@[i].name@,
                match d.processes@[i].held {
                    Some(held) => held@ + " MiB"@,
                    None => "—"@,
                },
            ) by {
                lemma_at(card, last, 1 + i);
                assert(shown[last][1 + i] == gpu::process_line(d.processes@[i]));
                assert(is_process(
                    card[last]@[1 + i],
                    d.processes@[i].pid,
                    d.processes@[i].name@,
                    match d.processes@[i].held {
                        Some(held) => held@ + " MiB"@,
                        None => "—"@,
                    },
                ));
            }
        },
        None => {},
    }
}

/// The processor's card says its load and its temperatures each under its own
/// label, and lists the processes it was given.
pub proof fn law_the_processor_card_says_its_readings(s: cpu::Sample, card: Seq<Vec<Line>>)
    requires
        blocks(card) == s.shows(),
    ensures
        card.len() > 0 && card[0]@.len() > 0 && (card[0]@[0] matches Line::Title {
            value,
            tone,
            ..
        } && value@ == s.total.shown@ + "%"@ && tone == Tone::Tier(cpu::tier_of(s.total.order))),
        s.detail matches Some(d) ==> says(
            card,
            "load"@,
            d.load_one@ + " "@ + d.load_five@ + " "@ + d.load_fifteen@ + "   "@ + d.entities@
                + " runnable"@,
        ),
        s.detail matches Some(d) ==> (d.peak > 0 ==> says(
            card,
            "clock"@,
            d.ghz_average@ + " GHz avg   "@ + d.ghz_peak@ + " GHz peak"@,
        )),
        forall|i: int|
            0 <= i < s.temps@.len() ==> says(
                card,
                (#[trigger] s.temps@[i]).label@,
                s.temps@[i].degrees@ + "°C"@,
            ),
        s.detail matches Some(d) ==> forall|i: int|
            0 <= i < d.processes@.len() ==> lists(
                card,
                (#[trigger] d.processes@[i]).pid,
                d.processes@[i].name@,
                d.processes@[i].share@ + "%"@,
            ),
{
    lemma_lengths(card);
    let shown = s.shows();
    assert(shown[0] == cpu::heading_of(s));
    assert(blocks(card)[0].len() == card[0]@.len());
    lemma_at(card, 0, 0);
    let first = if s.cores@.len() > 0 {
        2int
    } else {
        1
    };
    let warm = if s.detail is Some {
        first + 1
    } else {
        first
    };
    let last = if s.temps@.len() > 0 {
        warm + 1
    } else {
        warm
    };
    match s.detail {
        Some(d) => {
            assert(shown[first] == cpu::activity_block(d));
            assert(blocks(card)[first].len() == card[first]@.len());
            lemma_at(card, first, 1);
            assert(is_field(
                card[first]@[1],
                "load"@,
                d.load_one@ + " "@ + d.load_five@ + " "@ + d.load_fifteen@ + "   "@ + d.entities@
                    + " runnable"@,
            ));
            if d.peak > 0 {
                lemma_at(card, first, 2);
                assert(is_field(
                    card[first]@[2],
                    "clock"@,
                    d.ghz_average@ + " GHz avg   "@ + d.ghz_peak@ + " GHz peak"@,
                ));
            }
            assert forall|i: int| 0 <= i < d.processes@.len() implies lists(
                card,
                (#[trigger] d.processes@[i]).pid,
                d.processes@[i].name@,
                d.processes@[i].share@ + "%"@,
            ) by {
                assert(shown.len() == last + 1);
                assert(blocks(card)[last].len() == card[last]@.len());
                assert(shown[last].len() == 1 + d.processes@.len());
                lemma_at(card, last, 1 + i);
                assert(shown[last][1 + i] == cpu::process_line(d.processes@[i]));
                assert(is_process(
                    card[last]@[1 + i],
                    d.processes@[i].pid,
                    d.processes@[i].name@,
                    d.processes@[i].share@ + "%"@,
                ));
            }
        },
        None => {},
    }
    assert forall|i: int| 0 <= i < s.temps@.len() implies says(
        card,
        (#[trigger] s.temps@[i]).label@,
        s.temps@[i].degrees@ + "°C"@,
    ) by {
        assert(shown[warm].len() == 1 + s.temps@.len());
        assert(blocks(card)[warm].len() == card[warm]@.len());
        lemma_at(card, warm, 1 + i);
        assert(shown[warm][1 + i] == cpu::temp_line(s.temps@[i]));
        assert(is_field(card[warm]@[1 + i], s.temps@[i].label@, s.temps@[i].degrees@ + "°C"@));
    }
}

} // verus!
