use cosmicbar::modules::card::{Gauge, Line, Tone};
use cosmicbar::modules::cpu::{Core, Detail as ProcessorDetail, Process, Sample as Processor, Warmth};
use cosmicbar::modules::cpu::{
    bar_key, clocks, is_sensor_device, loadavg, model, package, per_column, process_name,
    process_ticks, read_stat, sensor_input, sort_sensors, temp_visual, times, usage_tier, Gate, Ran,
    Sampled, Sampler, Sensor, Spent, Times,
};
use cosmicbar::modules::gpu;
use cosmicbar::modules::gpu::{heat, processes, Heat, Holding};
use cosmicbar::modules::memory;
use cosmicbar::modules::memory::{largest, parse, resident, top, Figures, Resident};
use cosmicbar::modules::sampled;
use cosmicbar::modules::sampled::Measured;
use cosmicbar::reading::Reading;

fn order(value: f64) -> i64 {
    let bits = value.to_bits() as i64;
    if bits < 0 {
        bits ^ i64::MAX
    } else {
        bits
    }
}

fn reading(value: f64) -> Reading {
    Reading { order: order(value), shown: format!("{value:.0}") }
}

#[test]
fn guest_time_stays_out_of_the_sum() {
    assert_eq!(
        times("cpu  10 1 5 100 4 0 2 3 50 60"),
        Some(Times { total: 125, idle: 104 })
    );
    assert_eq!(times("cpu0 1 2 3 4 x"), Some(Times { total: 10, idle: 4 }));
    assert_eq!(times("cpu0 1 2 3 4"), None);
    assert_eq!(times(""), None);
}

#[test]
fn counters_are_read_up_to_the_first_other_line() {
    let stat = "cpu 1 1 1 1 1\ncpu0 2 2 2 2 2\nintr 5\ncpu1 3 3 3 3 3\n";
    assert_eq!(read_stat(stat).len(), 2);
}

#[test]
fn usage_is_what_was_spent_between_two_samples() {
    let mut sampler = Sampler::new();
    assert!(matches!(sampler.sample("intr 5\n"), Sampled::Nothing));
    assert!(matches!(sampler.sample("cpu 10 0 0 90 0\n"), Sampled::Baseline));
    let Sampled::Spent(spent) = sampler.sample("cpu 35 0 0 165 0\n") else { panic!() };
    assert_eq!(spent, vec![Spent { busy: 25, total: 100 }]);
    let Sampled::Spent(spent) = sampler.sample("cpu 0 0 0 200 0\n") else { panic!() };
    assert_eq!(spent, vec![Spent { busy: 0, total: 0 }]);
    let more = "cpu 0 0 0 200 0\ncpu0 0 0 0 200 0\n";
    assert!(matches!(sampler.sample(more), Sampled::Baseline));
}

#[test]
fn the_busiest_processes_are_listed() {
    let mut sampler = Sampler::new();
    sampler.keep(&(1..8).map(|pid| (pid, 100)).collect());
    let now: Vec<(u32, u128)> =
        vec![(1, 100), (2, 110), (3, 190), (4, 130), (5, 120), (6, 101), (7, 150), (8, 900)];
    let line = sampler.top(&now, 50);
    let pids: Vec<u32> = line.iter().map(|ran| ran.pid).collect();
    assert_eq!(pids, vec![3, 7, 4, 5, 2]);
    assert_eq!(line[0], Ran { pid: 3, ticks: 90 });
    assert!(sampler.top(&now, 0).is_empty());
    assert!(sampler.top(&now, 50).is_empty());
}

#[test]
fn process_times_stand_behind_the_last_bracket() {
    let stat = "42 (a) b (c)) S 1 2 3 4 5 6 7 8 9 10 30 12 0 0";
    assert_eq!(process_ticks(stat), Some(42));
    assert_eq!(process_ticks("42 (a) S 1 2"), None);
    assert_eq!(process_ticks("nothing"), None);
    assert_eq!(process_name(7, Some("bash\n")), "bash");
    assert_eq!(process_name(7, None), "[7]");
}

#[test]
fn the_machine_names_itself() {
    let info = "processor : 0\nmodel name\t: AMD Ryzen 9 Processor\ncpu MHz\t\t: 4200.5\nmodel name : other\ncpu MHz : 800\n";
    assert_eq!(model(info), "AMD Ryzen 9");
    assert_eq!(model("nothing"), "cpu");
    assert_eq!(clocks(info), vec!["4200.5".to_string(), "800".to_string()]);
    let (load, tasks) = loadavg("0.10 0.20 0.30 2/900 12345\n");
    assert_eq!((load.len(), tasks.as_str()), (3, "2/900"));
    assert_eq!(loadavg("0.10").1, "");
}

#[test]
fn the_package_sensor_comes_first() {
    let sensor = |label: &str| Sensor { label: label.into(), input: String::new() };
    let line = sort_sensors(vec![sensor("Tccd2"), sensor("Tctl"), sensor("Tccd1")]);
    let labels: Vec<String> = line.into_iter().map(|sensor| sensor.label).collect();
    assert_eq!(labels, vec!["Tctl".to_string(), "Tccd1".to_string(), "Tccd2".to_string()]);
    assert_eq!(package(&labels), Some(0));
    assert_eq!(package(&vec!["a".to_string(), "Tctl".to_string()]), Some(1));
    assert_eq!(package(&vec!["a".to_string()]), Some(0));
    assert_eq!(package(&vec![]), None);
    assert_eq!(sensor_input("temp1_label").as_deref(), Some("temp1_input"));
    assert!(sensor_input("temp1_input").is_none());
    assert!(is_sensor_device("k10temp\n") && !is_sensor_device("spd5118\n"));
}

#[test]
fn readings_step_at_their_thresholds() {
    assert_eq!(
        (usage_tier(order(74.9)), usage_tier(order(75.0)), usage_tier(order(90.0))),
        (0, 1, 2)
    );
    assert_eq!(temp_visual(order(29.9)), ("\u{f10c3}", 0));
    assert_eq!(temp_visual(order(30.0)), ("\u{f050f}", 0));
    assert_eq!(temp_visual(order(60.0)), ("\u{f10c2}", 0));
    assert_eq!(temp_visual(order(85.0)), ("\u{f10c2}", 1));
    assert_eq!(temp_visual(order(90.0)), ("\u{f0026}", 2));
    assert_eq!(temp_visual(order(-3.0)), ("\u{f10c3}", 0));
}

#[test]
fn a_sample_that_draws_the_same_cell_is_held_back() {
    let mut gate = Gate::new();
    assert!(gate.passes(&reading(41.6), &Some(reading(55.2)), false));
    assert!(!gate.passes(&reading(42.4), &Some(reading(54.9)), false));
    assert!(gate.passes(&reading(42.4), &Some(reading(54.9)), true));
    assert!(gate.passes(&reading(42.4), &None, false));
    let key = bar_key(&reading(76.0), &Some(reading(54.9)));
    assert_eq!((key.usage.as_str(), key.glyph, key.tier), ("76%", "\u{f0028}", 1));
    assert_eq!(key.temp.unwrap().shown, "55°C");
}

#[test]
fn threads_fill_two_columns() {
    assert_eq!((per_column(24), per_column(7), per_column(1), per_column(0)), (12, 4, 1, 1));
}

#[test]
fn memory_in_use_is_what_is_not_available() {
    let text = "MemTotal:       32000 kB\nMemFree: 1 kB\nMemAvailable: 24000 kB\nCached: 9 kB\nSwapTotal: 100 kB\nSwapFree: 60 kB\nHugePages\n";
    let info = parse(text).unwrap();
    assert_eq!((info.used_kib(), info.swap_used_kib(), info.cached_kib), (8000, 40, 9));
    assert!(parse("MemFree: 1 kB\n").is_none());
    assert!(parse("MemTotal: many kB\n").is_none());
    let odd = parse("MemTotal: 5 kB\nMemAvailable: 9 kB\nMemTotal: 7 kB\n").unwrap();
    assert_eq!((odd.total_kib, odd.used_kib()), (7, 0));
}

#[test]
fn the_memory_cell_is_held_back_when_it_looks_the_same() {
    let figures = |used: &str, percent: f64| Figures {
        used: used.into(),
        total: "31".into(),
        percent: reading(percent),
    };
    let mut gate = memory::Gate::new();
    assert!(gate.passes(&figures("7.6", 25.0), false));
    assert!(!gate.passes(&figures("7.6", 25.2), false));
    assert!(gate.passes(&figures("7.7", 25.2), false));
    let key = figures("28.1", 91.0).bar_key();
    assert_eq!((key.text.as_str(), key.glyph, key.tier), ("28.1/31G 91%", "\u{f0027}", 2));
    assert_eq!(memory::tier(order(75.0)), 1);
}

#[test]
fn the_largest_processes_are_listed() {
    assert_eq!(resident("900 25 3"), Some(25 * 4096));
    assert_eq!(resident("900"), None);
    let line = top((0..7).map(|pid| Resident { pid, bytes: (pid as u128 % 4) * 10 }).collect());
    let bytes: Vec<u128> = line.iter().map(|process| process.bytes).collect();
    assert_eq!(bytes, vec![30, 20, 20, 10, 10]);
    assert_eq!((largest(&line), largest(&vec![])), (30, 1));
}

#[test]
fn a_device_warns_ten_degrees_below_its_limit() {
    assert_eq!(heat(83, Some(93)), Heat::Warm);
    assert_eq!(heat(82, Some(93)), Heat::Fine);
    assert_eq!(heat(93, Some(93)), Heat::Critical);
    assert_eq!((heat(90, None), heat(80, None)), (Heat::Critical, Heat::Warm));
    assert_eq!(heat(u32::MAX - 1, Some(u32::MAX)), Heat::Warm);
    let cell = gpu::cell(91, 7, None);
    assert_eq!((cell.text.as_str(), cell.glyph), ("91°C 7%", "\u{f0026}"));
    assert_eq!(gpu::temp_text(60, Some(93)), "60°C / 93°C");
    assert_eq!(gpu::temp_text(60, None), "60°C");
    assert_eq!(gpu::clock(210, Some(2100)), "210 / 2100 MHz");
    assert_eq!(gpu::clock(210, None), "210 MHz");
    assert_eq!(gpu::percent(30), "30%");
    assert_eq!(gpu::title("NVIDIA GeForce RTX 4090 Laptop"), "NVIDIA GeForce RTX 4090 L…");
}

#[test]
fn an_idle_device_costs_no_frame() {
    let mut gate = gpu::Gate::new();
    assert!(gate.passes(40, 0, false));
    assert!(!gate.passes(40, 0, false));
    assert!(gate.passes(40, 0, true) && gate.passes(41, 0, false));
}

#[test]
fn a_process_with_two_contexts_has_one_row() {
    let holding = |pid: u32, bytes: Option<u64>| Holding { pid, bytes };
    let rows = processes(&vec![
        holding(1, Some(10)),
        holding(2, None),
        holding(1, Some(30)),
        holding(3, Some(20)),
        holding(2, Some(5)),
        holding(3, None),
    ]);
    assert_eq!(rows, vec![holding(1, Some(30)), holding(3, Some(20)), holding(2, Some(5))]);
    let many = processes(&(0..9).map(|pid| holding(pid, Some(pid as u64))).collect());
    assert_eq!(many.len(), 6);
    assert_eq!(many[0].pid, 8);
}

fn section_names(card: &[Vec<Line>]) -> Vec<&'static str> {
    card.iter()
        .filter_map(|block| match block.first() {
            Some(Line::Section(name)) => Some(*name),
            _ => None,
        })
        .collect()
}

fn fields(block: &[Line]) -> Vec<(&str, &str, Tone)> {
    block
        .iter()
        .filter_map(|line| match line {
            Line::Field { label, value, tone, .. } => Some((label.as_str(), value.as_str(), *tone)),
            _ => None,
        })
        .collect()
}

fn meters(block: &[Line]) -> Vec<Gauge> {
    block
        .iter()
        .filter_map(|line| match line {
            Line::Meter { gauge, .. } => Some(*gauge),
            _ => None,
        })
        .collect()
}

fn device() -> gpu::Sample {
    gpu::Sample {
        name: "NVIDIA GeForce RTX 5090 Founders Edition".into(),
        slowdown_c: Some(90),
        temp_c: 81,
        gpu_percent: 7,
        vram_used: "1.5".into(),
        vram_total: "32.0".into(),
        detail: None,
    }
}

fn device_detail() -> gpu::Detail {
    gpu::Detail {
        memory_percent: 3,
        power: None,
        power_limit: Some("575".into()),
        sm_mhz: None,
        sm_max_mhz: Some(3000),
        mem_mhz: None,
        mem_max_mhz: None,
        fan_percent: None,
        processes: Vec::new(),
    }
}

#[test]
fn a_module_pops_up_once_it_was_sampled() {
    let mut state = sampled::State::new();
    assert!(!state.has_popup() && state.popup().is_none());
    state.update(device());
    assert!(state.has_popup());
    assert_eq!(state.popup().unwrap().len(), 2);
}

#[test]
fn the_gpu_card_shows_what_the_device_tells() {
    let mut sample = device();
    let card = sample.card();
    match &card[0][0] {
        Line::Title { name, value, tone } => {
            assert_eq!(name, "NVIDIA GeForce RTX 5090 F…");
            assert_eq!((value.as_str(), *tone), ("81°C / 90°C", Tone::Tier(1)));
        }
        other => panic!("no title: {other:?}"),
    }
    assert_eq!(section_names(&card), ["usage"]);
    assert_eq!(
        fields(&card[1]),
        [("utilization", "7%", Tone::Green), ("vram", "1.5 / 32.0 GiB", Tone::Mauve)]
    );
    assert_eq!(meters(&card[1]), [Gauge::Usage, Gauge::Memory]);

    sample.detail = Some(device_detail());
    let card = sample.card();
    assert_eq!(section_names(&card), ["usage", "processes"]);
    assert_eq!(fields(&card[1])[2], ("memory bus", "3%", Tone::Teal));
    assert!(matches!(card[2][1], Line::Note("no processes holding vram")));

    let process = |held: Option<&str>| gpu::Process {
        pid: 7,
        name: "blender".into(),
        held: held.map(str::to_owned),
    };
    sample.detail = Some(gpu::Detail {
        power: Some("120".into()),
        mem_mhz: Some(1750),
        fan_percent: Some(0),
        processes: vec![process(Some("  512")), process(None)],
        ..device_detail()
    });
    let card = sample.card();
    assert_eq!(section_names(&card), ["usage", "clocks", "cooling", "processes"]);
    assert_eq!(fields(&card[1])[2], ("power", "120 / 575 W", Tone::Peach));
    assert_eq!(meters(&card[1]), [Gauge::Usage, Gauge::Memory, Gauge::Power]);
    assert_eq!(fields(&card[2]), [("mem clock", "1750 MHz", Tone::Blue)]);
    assert_eq!(fields(&card[3]), [("fan", "0%", Tone::Muted)]);
    let held: Vec<&str> = card[4]
        .iter()
        .filter_map(|line| match line {
            Line::Process { value, .. } => Some(value.as_str()),
            _ => None,
        })
        .collect();
    assert_eq!(held, ["  512 MiB", "—"]);

    sample.detail = Some(gpu::Detail {
        power: Some("120".into()),
        power_limit: None,
        fan_percent: Some(30),
        ..device_detail()
    });
    let card = sample.card();
    assert_eq!(fields(&card[1])[2], ("power", "120 W", Tone::Peach));
    assert_eq!(fields(&card[2]), [("fan", "30%", Tone::Teal)]);
}

#[test]
fn the_memory_card_notices_swap() {
    let mut sample = memory::Sample {
        info: parse("MemTotal: 100 kB\nMemAvailable: 20 kB\n").unwrap(),
        percent: reading(80.0),
        meter: order(80.0),
        used: "0.1".into(),
        total: "0.2".into(),
        available: "0.3".into(),
        cached: "0.4".into(),
        swap_used: "0.5".into(),
        swap_total: "0.6".into(),
        processes: Vec::new(),
    };
    let card = sample.card();
    assert_eq!(card.len(), 2);
    match &card[0][..] {
        [Line::Title { name, value, tone }, Line::Meter { gauge, tone: colour }] => {
            assert_eq!((name.as_str(), value.as_str()), ("0.1 GiB of 0.2 GiB", "80%"));
            assert_eq!((*tone, *gauge, *colour), (Tone::Tier(1), Gauge::Usage, Tone::Tier(1)));
        }
        other => panic!("no heading: {other:?}"),
    }
    assert_eq!(
        fields(&card[1]),
        [
            ("available", "0.3 GiB", Tone::Green),
            ("page cache", "0.4 GiB", Tone::Blue),
            ("swap", "none", Tone::Muted),
        ]
    );
    sample.info = parse("MemTotal: 100 kB\nSwapTotal: 9 kB\nSwapFree: 8 kB\n").unwrap();
    sample.meter = order(10.0);
    let process = memory::Process { pid: 3, name: "x".into(), held: "   12".into() };
    sample.processes = vec![process.clone(), process];
    let card = sample.card();
    assert_eq!(fields(&card[1])[2], ("swap", "0.5 / 0.6 GiB", Tone::Peach));
    assert!(matches!(card[0][1], Line::Meter { tone: Tone::Mauve, .. }));
    assert_eq!(section_names(&card), ["breakdown", "processes"]);
    assert_eq!(meters(&card[2]), [Gauge::Process(0), Gauge::Process(1)]);
}

#[test]
fn the_cpu_card_has_a_block_for_all_that_was_read() {
    let mut sample = Processor {
        total: reading(95.0),
        meter: order(95.0),
        cores: Vec::new(),
        temps: Vec::new(),
        detail: None,
    };
    let card = sample.card();
    assert_eq!(card.len(), 1);
    match &card[0][..] {
        [Line::Title { name, value, tone }, Line::Meter { tone: colour, .. }] => {
            assert_eq!((name.as_str(), value.as_str(), *tone), ("cpu", "95%", Tone::Tier(2)));
            assert_eq!(*colour, Tone::Tier(2));
        }
        other => panic!("no heading: {other:?}"),
    }
    sample.cores = [10.0, 80.0, 90.0]
        .iter()
        .map(|&busy| Core { busy: format!("{busy:>3.0}"), meter: order(busy) })
        .collect();
    sample.temps =
        vec![Warmth { label: "Tctl".into(), order: order(86.0), degrees: "86.0".into() }];
    sample.detail = Some(ProcessorDetail {
        model: "a processor".into(),
        load_one: "0.10".into(),
        load_five: "0.20".into(),
        load_fifteen: "0.30".into(),
        entities: "2/900".into(),
        peak: 0,
        ghz_average: "0.00".into(),
        ghz_peak: "0.00".into(),
        processes: Vec::new(),
    });
    let card = sample.card();
    assert_eq!(section_names(&card), ["cores", "activity", "temperatures"]);
    match &card[1][1] {
        Line::Threads(columns) => {
            let shown: Vec<Vec<(usize, &str, Tone)>> = columns
                .iter()
                .map(|column| {
                    column.iter().map(|at| (at.number, at.value.as_str(), at.tone)).collect()
                })
                .collect();
            assert_eq!(
                shown,
                [
                    vec![(0, " 10", Tone::Blue), (1, " 80", Tone::Tier(1))],
                    vec![(2, " 90", Tone::Tier(2))],
                ]
            );
        }
        other => panic!("no threads: {other:?}"),
    }
    assert_eq!(fields(&card[2]), [("load", "0.10 0.20 0.30   2/900 runnable", Tone::Muted)]);
    assert_eq!(fields(&card[3]), [("Tctl", "86.0°C", Tone::Tier(1))]);
    if let Some(detail) = &mut sample.detail {
        detail.peak = order(5000.0);
        detail.ghz_average = "3.10".into();
        detail.ghz_peak = "5.00".into();
        detail.processes =
            vec![Process { pid: 9, name: "rustc".into(), share: " 99.0".into() }];
    }
    let card = sample.card();
    assert_eq!(fields(&card[2])[1].1, "3.10 GHz avg   5.00 GHz peak");
    match &card[4][1] {
        Line::Process { pid, name, value, tone } => {
            assert_eq!((*pid, name.as_str(), value.as_str()), (9, "rustc", " 99.0%"));
            assert_eq!(*tone, Tone::Blue);
        }
        other => panic!("no process: {other:?}"),
    }
}
