use pi_dash::numeric::Ratio;
use pi_dash::paint::{Color, Line, Style};
use pi_dash::ui::demo::{colour, escape, indexed, plain_text, splice_readme, svg};
use pi_dash::ui::gauge::{
    area_graph, bar, detect_depth, ramp_at, scale_to_peak, sparkline, track, Depth, Glyphs, Ramp,
};
use pi_dash::ui::layout::{arrange, reader_width, Body, Rect};
use pi_dash::ui::processes::{proc_columns, window, Window};
use pi_dash::ui::system::{
    band_layout, core_grid, cpu_layout, stacked_graph_rows, CORE_LABEL, CORE_METER_MIN, CORE_SPARK,
    CORE_TAIL, CPU_NUM_W, FIXED_ROWS, GRAPH_MAX_ROWS, GRAPH_MIN_ROWS, GRAPH_MIN_WIDTH, MEM_W,
    PID_W, PROC_BAR_W, PROC_CMDLINE_MIN, PROC_NAME_W, PROC_ROWS_RESERVED,
};

const DEEP: Depth = Depth::Cube256;

/// A part of one, to a ten-thousandth.
fn part(f: f64) -> Ratio {
    if f > 0.0 {
        Ratio::new((f * 10_000.0).round() as u64, 10_000)
    } else {
        Ratio::new(0, 10_000)
    }
}

fn parts(values: &[f64]) -> Vec<Ratio> {
    values.iter().map(|v| part(*v)).collect()
}

/// The visible characters of a line, ignoring colour.
fn text(line: &Line) -> String {
    line.spans.iter().map(|s| s.text.as_str()).collect()
}

/// Whether each cell of a row is lit data or unlit track, by colour.
fn lit_mask(line: &Line) -> Vec<bool> {
    let mut mask = Vec::new();
    for span in &line.spans {
        let lit = span.style.fg != Some(track(DEEP));
        for _ in span.text.chars() {
            mask.push(lit);
        }
    }
    mask
}

fn graph(values: &[f64], width: usize, rows: usize, glyphs: Glyphs) -> Vec<Line> {
    area_graph(DEEP, &parts(values), width, rows, glyphs, Ramp::Load)
}

fn graph_text(lines: &[Line]) -> Vec<String> {
    lines.iter().map(text).collect()
}

fn meter(frac: f64, width: usize, glyphs: Glyphs) -> String {
    text(&bar(DEEP, part(frac), width, glyphs, Ramp::Load))
}

#[test]
fn a_bar_is_always_exactly_its_width() {
    for frac in [-1.0, 0.0, 0.37, 0.999, 1.0, 4.0, f64::NAN] {
        for glyphs in [Glyphs::Unicode, Glyphs::Ascii] {
            assert_eq!(meter(frac, 16, glyphs).chars().count(), 16, "frac {frac} in {glyphs:?}");
        }
    }
    // Nothing measured at all counts as nothing.
    assert_eq!(text(&bar(DEEP, Ratio::new(3, 0), 4, Glyphs::Ascii, Ramp::Load)), "....");
    assert!(bar(DEEP, part(0.5), 0, Glyphs::Unicode, Ramp::Load).spans.is_empty());
}

#[test]
fn an_empty_bar_is_track_and_a_full_one_is_fill() {
    assert_eq!(meter(0.0, 8, Glyphs::Ascii), "........");
    assert_eq!(meter(1.0, 8, Glyphs::Ascii), "########");
    assert_eq!(meter(0.0, 4, Glyphs::Unicode), "░░░░");
    assert_eq!(meter(1.0, 4, Glyphs::Unicode), "████");
}

#[test]
fn a_partial_cell_lands_between_empty_and_full() {
    // Three and a half cells of eight.
    assert_eq!(meter(3.5 / 8.0, 8, Glyphs::Unicode), "███▌░░░░");
    // ASCII has no half-cell, so it rounds at the middle rather than dropping
    // the remainder.
    assert_eq!(meter(3.5 / 8.0, 8, Glyphs::Ascii), "####....");
    assert_eq!(meter(3.2 / 8.0, 8, Glyphs::Ascii), "###.....");
}

#[test]
fn a_small_but_non_zero_value_still_shows_something() {
    let drawn = meter(0.004, 16, Glyphs::Unicode);
    assert!(drawn.starts_with('▏'), "got {drawn}");
    assert_eq!(meter(0.0, 16, Glyphs::Unicode).chars().next(), Some('░'));
}

#[test]
fn the_ramp_runs_green_to_red_and_clamps() {
    assert_eq!(ramp_at(Depth::Ansi16, Ramp::Load, part(0.0)), Color::Green);
    assert_eq!(ramp_at(Depth::Ansi16, Ramp::Load, part(1.0)), Color::Red);
    assert_eq!(ramp_at(Depth::Ansi16, Ramp::Load, part(-5.0)), Color::Green);
    assert_eq!(ramp_at(Depth::Ansi16, Ramp::Load, part(5.0)), Color::Red);
    assert_eq!(ramp_at(Depth::Ansi16, Ramp::Load, part(f64::NAN)), Color::Green);
    // The ends of the cube's edge walk: pure green, then pure red.
    assert_eq!(ramp_at(Depth::Cube256, Ramp::Load, part(0.0)), Color::Indexed(16 + 6 * 5));
    assert_eq!(ramp_at(Depth::Cube256, Ramp::Load, part(1.0)), Color::Indexed(16 + 36 * 5));
    assert_eq!(ramp_at(Depth::Cube256, Ramp::Load, part(2.0)), Color::Indexed(16 + 36 * 5));
}

#[test]
fn the_pi_console_is_detected_as_sixteen_colour() {
    assert_eq!(detect_depth(Some("linux"), None), Depth::Ansi16);
    assert_eq!(detect_depth(Some("xterm"), None), Depth::Ansi16);
    assert_eq!(detect_depth(None, None), Depth::Ansi16);
    assert_eq!(detect_depth(Some("xterm-256color"), None), Depth::Cube256);
    assert_eq!(detect_depth(Some("linux"), Some("truecolor")), Depth::Cube256);
    // An exported-but-empty COLORTERM is not a claim of anything.
    assert_eq!(detect_depth(Some("linux"), Some("")), Depth::Ansi16);
}

#[test]
fn unknown_glyph_names_fall_back_rather_than_failing() {
    assert_eq!(Glyphs::parse("ascii"), Glyphs::Ascii);
    assert_eq!(Glyphs::parse("  ASCII "), Glyphs::Ascii);
    assert_eq!(Glyphs::parse("unicode"), Glyphs::Unicode);
    assert_eq!(Glyphs::parse("braille"), Glyphs::Unicode);
    assert_eq!(Glyphs::parse(""), Glyphs::Unicode);
    // The ASCII frame must not smuggle a box-drawing glyph back in.
    let set = Glyphs::Ascii.border_set();
    for piece in [
        set.top_left,
        set.top_right,
        set.bottom_left,
        set.bottom_right,
        set.vertical,
        set.horizontal,
    ] {
        assert!(piece.is_ascii(), "{piece:?} is not ASCII");
    }
}

#[test]
fn a_graph_is_exactly_its_width_and_height() {
    let samples: Vec<f64> = (0..500).map(|i| (i % 100) as f64 / 100.0).collect();
    for glyphs in [Glyphs::Unicode, Glyphs::Ascii] {
        let lines = graph(&samples, 20, 4, glyphs);
        assert_eq!(lines.len(), 4);
        for line in graph_text(&lines) {
            assert_eq!(line.chars().count(), 20, "{glyphs:?}: {line}");
        }
    }
    assert!(graph(&samples, 0, 4, Glyphs::Unicode).is_empty());
    assert!(graph(&samples, 20, 0, Glyphs::Unicode).is_empty());
}

#[test]
fn a_graph_with_no_samples_yet_is_a_floor_and_nothing_else() {
    assert_eq!(graph_text(&graph(&[], 6, 2, Glyphs::Ascii)), ["      ", "......"]);
    assert_eq!(
        graph_text(&graph(&[], 3, 1, Glyphs::Unicode)),
        ["\u{28C0}\u{28C0}\u{28C0}"]
    );
    // Blank rows are still exactly as wide as the graph.
    for line in graph_text(&graph(&[], 9, 4, Glyphs::Unicode)) {
        assert_eq!(line.chars().count(), 9, "{line:?}");
    }
}

#[test]
fn history_is_right_aligned_so_a_fresh_start_grows_inward() {
    assert_eq!(graph_text(&graph(&[1.0, 1.0], 6, 1, Glyphs::Ascii)), ["....##"]);
}

#[test]
fn a_full_column_fills_every_row_and_an_idle_one_fills_none() {
    assert_eq!(graph_text(&graph(&[1.0; 8], 4, 3, Glyphs::Ascii)), ["####"; 3]);
    // Idle is blank above the floor, not a column of dots.
    assert_eq!(
        graph_text(&graph(&[0.0; 8], 4, 3, Glyphs::Ascii)),
        ["    ", "    ", "...."]
    );
    // Braille: a full column is the all-dots cell.
    assert_eq!(graph_text(&graph(&[1.0; 8], 2, 2, Glyphs::Unicode)), ["⣿⣿"; 2]);
}

#[test]
fn ascii_resolves_half_a_row() {
    assert_eq!(graph_text(&graph(&[0.75; 4], 3, 2, Glyphs::Ascii)), ["---", "###"]);
}

#[test]
fn the_graph_fills_from_the_bottom_up() {
    let lines = graph_text(&graph(&[0.5; 8], 4, 4, Glyphs::Ascii));
    assert_eq!(lines[0], "    ", "the top row must be empty at 50%");
    assert_eq!(lines[1], "    ");
    assert_eq!(lines[2], "####");
    assert_eq!(lines[3], "####");
}

#[test]
fn a_barely_busy_sample_lights_the_bottom_dot_row_only() {
    let busy = graph(&[0.01; 16], 8, 6, Glyphs::Unicode);
    assert!(
        lit_mask(&busy[5]).iter().all(|lit| *lit),
        "the bottom row must be lit data, not floor"
    );
    assert!(
        lit_mask(&busy[4]).iter().all(|lit| !*lit),
        "nothing above it may light"
    );

    // And a genuinely idle box must not read as the busy one: the same glyph on
    // the bottom row, in another colour.
    let idle = graph(&[0.0; 16], 8, 6, Glyphs::Unicode);
    assert_eq!(graph_text(&idle)[5], graph_text(&busy)[5]);
    assert!(lit_mask(&idle[5]).iter().all(|lit| !*lit));
}

#[test]
fn a_sparkline_packs_two_samples_into_a_cell() {
    let line = sparkline(
        DEEP,
        &parts(&[0.0, 0.5, 1.0, 1.0]),
        2,
        Glyphs::Unicode,
        Ramp::Cool,
    );
    assert_eq!(text(&line), "\u{28a0}\u{28ff}");
    let plain = sparkline(DEEP, &parts(&[1.0, 1.0]), 4, Glyphs::Ascii, Ramp::Cool);
    assert_eq!(text(&plain), "..##");
    let scaled = scale_to_peak(&vec![0, 50, 100]);
    assert_eq!(scaled, [Ratio::new(0, 100), Ratio::new(50, 100), Ratio::new(100, 100)]);
}

#[test]
fn a_wide_tall_pane_puts_the_graph_beside_the_cores() {
    let plan = cpu_layout(150, 40, 4);
    assert!(plan.side_by_side);
    // cpu + four cores + load.
    assert_eq!(plan.rows, 6);
    assert!(plan.graph_width >= GRAPH_MIN_WIDTH);
    assert_eq!(plan.core_spark, CORE_SPARK);
}

#[test]
fn a_narrow_or_short_or_many_cored_pane_falls_back_to_the_grid() {
    // Not enough width for a graph *and* a column.
    assert!(!cpu_layout(60, 40, 4).side_by_side);
    // Enough width, but the block would leave no process table.
    assert!(!cpu_layout(150, 12, 4).side_by_side);
    // Sixteen cores in a vertical list are not a summary any more.
    assert!(!cpu_layout(150, 60, 16).side_by_side);
    // A machine reporting no cores at all must not claim the layout.
    assert!(!cpu_layout(150, 40, 0).side_by_side);
}

#[test]
fn the_side_by_side_block_always_fits_the_pane_it_was_measured_for() {
    for width in 30..220usize {
        for height in 4..70usize {
            for cores in [0usize, 1, 2, 4, 8, 16, 64] {
                let plan = cpu_layout(width, height, cores);
                if !plan.side_by_side {
                    continue;
                }
                // Two of indent, the graph, two of gap, then everything that a
                // core row draws.
                let column = CORE_LABEL + plan.core_meter + CORE_TAIL + plan.core_spark;
                assert!(
                    2 + plan.graph_width + 2 + column <= width,
                    "{cores} cores at {width}x{height}: graph {} + column {column}",
                    plan.graph_width
                );
                // And the rows it claims leave the table its reservation.
                assert!(
                    plan.rows + FIXED_ROWS + PROC_ROWS_RESERVED <= height,
                    "{cores} cores at {width}x{height}: {} rows",
                    plan.rows
                );
            }
        }
    }
}

#[test]
fn a_grid_row_never_overflows_the_pane_at_any_width() {
    for width in 8..200usize {
        for cores in [0usize, 1, 2, 4, 8, 16, 64] {
            let (per_row, meter) = core_grid(width, cores);
            assert!(per_row >= 1, "per_row must be chunkable at {width}/{cores}");
            assert!(per_row <= cores.max(1));
            // The least meter can still overflow a pane too narrow for even one
            // cell: that clips, which is fine.
            if width >= CORE_LABEL + CORE_METER_MIN + CORE_TAIL + 2 {
                assert!(
                    per_row * (CORE_LABEL + meter + CORE_TAIL) <= width - 2,
                    "{cores} cores at width {width}: {per_row}x{meter}"
                );
            }
        }
    }
}

#[test]
fn the_stacked_graph_yields_to_the_process_table_before_anything_else() {
    // A short pane gets no graph at all rather than a two-row one.
    assert_eq!(stacked_graph_rows(14, 1), 0);
    assert_eq!(stacked_graph_rows(0, 4), 0);
    assert_eq!(stacked_graph_rows(44, 1), GRAPH_MAX_ROWS);
    for height in 0..80usize {
        for core_rows in 1..5usize {
            let graph = stacked_graph_rows(height, core_rows);
            assert!(graph == 0 || graph >= GRAPH_MIN_ROWS, "height {height}");
            assert!(graph <= GRAPH_MAX_ROWS);
            if graph > 0 {
                assert!(
                    graph + 1 + core_rows + FIXED_ROWS + PROC_ROWS_RESERVED <= height,
                    "graph {graph} at height {height} with {core_rows} core rows"
                );
            }
        }
    }
}

#[test]
fn the_table_sheds_columns_in_order_of_what_they_are_worth() {
    // Wide: meter, name and a greedy command line.
    let wide = proc_columns(140);
    assert_eq!(wide.bar, PROC_BAR_W);
    assert_eq!(wide.name, PROC_NAME_W);
    assert!(wide.cmdline >= PROC_CMDLINE_MIN);

    // Narrower: the command line goes and the name takes the slack, so the
    // columns never strand the numbers at the far right.
    let middling = proc_columns(80);
    assert_eq!(middling.cmdline, 0);
    assert!(middling.name > PROC_NAME_W);

    // Narrower still: the meter goes too.
    assert_eq!(proc_columns(50).bar, 0);
    // Even absurdly narrow, the name stays usable rather than zero.
    assert_eq!(proc_columns(0).name, 8);
}

#[test]
fn a_process_row_fits_the_pane_it_was_measured_for() {
    for width in 20..220usize {
        let c = proc_columns(width);
        let row = 2
            + PID_W
            + c.name
            + c.cmdline
            + c.user
            + c.threads
            + MEM_W
            + 3
            + CPU_NUM_W
            + c.bar;
        // A pane too narrow for even the fixed columns clips, which is fine.
        if width >= 40 {
            assert!(row <= width, "row {row} overflows width {width}");
        }
    }
}

#[test]
fn a_window_parks_at_the_end_of_its_list() {
    assert_eq!(window(40, 12, 8), Window { start: 12, end: 20 });
    assert_eq!(window(40, 9_999, 8), Window { start: 32, end: 40 });
    assert_eq!(window(3, 2, 8), Window { start: 0, end: 3 });
}

#[test]
fn the_band_shares_the_pane_out_exactly() {
    for width in 0..300usize {
        for (disks, net) in [(false, false), (true, false), (false, true), (true, true)] {
            let band = band_layout(width, disks, net);
            assert_eq!(band.mem + band.disks + band.net, width);
        }
    }
    assert_eq!(band_layout(103, true, true).disks, 0);
    assert_eq!(band_layout(129, true, true).net, 0);
    assert!(band_layout(130, true, true).net > 0);
}

#[test]
fn everything_has_its_place_on_a_screen_with_room() {
    assert_eq!(reader_width(100), 48);
    assert_eq!(reader_width(128), 53);
    assert_eq!(reader_width(300), 60);

    let places = arrange(128, 46, 9, 10);
    assert_eq!(places.header, Rect { x: 0, y: 0, width: 128, height: 1 });
    assert_eq!(places.footer, Rect { x: 0, y: 45, width: 128, height: 1 });
    assert_eq!(
        places.body,
        Body::Wide {
            system: Rect { x: 0, y: 1, width: 75, height: 44 },
            health: Rect { x: 75, y: 1, width: 53, height: 9 },
            radios: Rect { x: 75, y: 10, width: 53, height: 10 },
            classg: Rect { x: 75, y: 20, width: 53, height: 25 },
        }
    );
    assert_eq!(
        arrange(80, 24, 9, 10).body,
        Body::Narrow { focused: Rect { x: 0, y: 1, width: 80, height: 22 } }
    );
}

#[test]
fn the_last_pane_keeps_its_rows_however_crowded_the_column() {
    for height in 6..40u16 {
        for radios in [10u16, 30, 200, u16::MAX] {
            match arrange(120, height, 9, radios).body {
                Body::Wide { classg, .. } => assert!(classg.height >= 4, "{height}/{radios}"),
                Body::Narrow { .. } => panic!("a wide screen"),
            }
        }
    }
}

#[test]
fn the_palette_runs_through_the_cube_and_the_greys() {
    assert_eq!(indexed(1), "#e05561");
    assert_eq!(indexed(16), "#000000");
    assert_eq!(indexed(46), "#00ff00");
    assert_eq!(indexed(196), "#ff0000");
    assert_eq!(indexed(232), "#080808");
    assert_eq!(indexed(255), "#eeeeee");
    assert_eq!(colour(None), None);
    assert_eq!(colour(Some(Color::White)).as_deref(), Some("#eef2f7"));
    assert_eq!(escape("a<b>&c"), "a&lt;b&gt;&amp;c");
}

#[test]
fn a_picture_places_every_run_at_its_own_column() {
    let mut row = Line::of("ab".to_string(), Style::fg(Color::Red));
    row.push(" ".to_string(), Style::plain());
    row.push("c".to_string(), Style { fg: None, bg: Some(Color::Blue), bold: true });
    let rows = vec![row];
    assert_eq!(plain_text(&rows), "ab c\n");
    let drawn = svg(&rows, 128);
    assert!(drawn.starts_with("<svg xmlns=\"http://www.w3.org/2000/svg\" viewBox=\"0 0 1111 46\""));
    assert!(
        drawn.contains(
            "<rect x=\"43.20\" y=\"16.00\" width=\"8.40\" height=\"16.10\" fill=\"#4b9fea\"/>"
        ),
        "{drawn}"
    );
    assert!(
        drawn.contains(
            "<text x=\"18.00\" y=\"27.92\" fill=\"#e05561\" textLength=\"16.80\" \
             lengthAdjust=\"spacing\" xml:space=\"preserve\">ab</text>"
        ),
        "{drawn}"
    );
    assert!(drawn.contains("font-weight=\"bold\""), "{drawn}");
    assert!(drawn.ends_with("</svg>\n"));
}

#[test]
fn the_readme_splice_leaves_the_prose_alone() {
    let readme = "# t\n\n![x](assets/pi-dash.svg)\n\n<details>\n<summary>The same frame as text</summary>\n\n```\nold\n```\n\n</details>\n\ntail\n";
    let spliced = splice_readme(readme, "new\n").expect("markers");
    assert!(spliced.contains("```\nnew\n```"), "{spliced}");
    assert!(spliced.ends_with("</details>\n\ntail\n"), "{spliced}");
    assert!(!spliced.contains("old"), "{spliced}");
    // A README that has been restructured past recognition is left alone.
    assert!(splice_readme("# t\n\nno markers here\n", "new\n").is_none());
}

#[test]
fn a_short_screen_keeps_its_strips_and_its_columns() {
    for height in [5, 10, 16, 24, 44] {
        let places = arrange(120, height, 9, 15);
        assert_eq!(places.header, Rect { x: 0, y: 0, width: 120, height: 1 });
        assert_eq!(places.footer, Rect { x: 0, y: height - 1, width: 120, height: 1 });
        let reader = reader_width(120);
        match places.body {
            Body::Wide { system, health, radios, classg } => {
                let left = 120 - reader;
                assert_eq!(system, Rect { x: 0, y: 1, width: left, height: height - 2 });
                for pane in [health, radios, classg] {
                    assert_eq!((pane.x, pane.width), (left, reader), "at {height} rows");
                    assert!(pane.y >= 1 && pane.y + pane.height < height, "at {height} rows");
                }
            }
            Body::Narrow { .. } => panic!("120 columns are wide"),
        }
    }
    for height in 0..5 {
        let places = arrange(90, height, 9, 15);
        assert_eq!((places.header.x, places.header.width), (0, 90));
        assert_eq!((places.footer.x, places.footer.width), (0, 90));
    }
}

/// How many of `t` rows the first of two panes gets that ask for more.
fn first_share(a: u16, b: u16, t: u16) -> u16 {
    if 2 * a < t {
        a
    } else if 2 * b < t {
        t - b
    } else {
        (t + 1) / 2
    }
}

#[test]
fn a_crowded_column_is_shared_and_no_pane_vanishes() {
    for height in 6..48u16 {
        for health in [1, 2, 5, 9, 14, 40] {
            for radios_rows in [1, 3, 6, 10, 15, 26, 200] {
                let Body::Wide { system, health: first, radios, classg } =
                    arrange(120, height, health, radios_rows).body
                else {
                    panic!("120 columns are wide");
                };
                let at = format!("{height} rows for {health} and {radios_rows}");
                let crowded = u32::from(height) < 6 + u32::from(health) + u32::from(radios_rows);
                let (want_first, want_second) = if crowded {
                    let share = first_share(health, radios_rows, height - 6);
                    (share, height - 6 - share)
                } else {
                    (health, radios_rows)
                };
                assert_eq!((first.y, first.height), (1, want_first), "{at}");
                assert_eq!((radios.y, radios.height), (1 + want_first, want_second), "{at}");
                assert_eq!(classg.y, 1 + want_first + want_second, "{at}");
                assert_eq!(classg.y + classg.height, height - 1, "{at}");
                assert_eq!((system.y, system.height), (1, height - 2), "{at}");
                if crowded {
                    assert_eq!(classg.height, 4, "{at}");
                }
                if height >= 8 {
                    assert!(first.height > 0 && radios.height > 0, "{at}");
                }
            }
        }
    }
}

#[test]
fn a_screen_of_few_rows_is_filled_by_what_is_drawn() {
    for height in 0..6u16 {
        let places = arrange(90, height, 9, 15);
        let Body::Narrow { focused } = places.body else {
            panic!("90 columns are narrow");
        };
        assert_eq!(places.header.y, 0);
        assert_eq!(focused.y, places.header.height);
        assert_eq!(places.footer.y, focused.y + focused.height);
        assert_eq!(places.footer.y + places.footer.height, height);
    }
}
