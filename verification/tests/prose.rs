//! Every string a person wrote into a message is held to the shape they
//! wrote it in: a scan for a line continuation whose backslash was lost,
//! which welds the next line's indentation into the middle of a sentence.

/// A run of spaces this long, mid-sentence inside a literal, is the tell.
///
/// A continued line is indented to at least the literal's own column, so a
/// dropped backslash welds fifteen to twenty-five spaces into the middle of a
/// sentence; the two observed were twenty and twenty-two. Eight is well under
/// that and well over the three or four an aligned comment in a config sample
/// takes.
///
/// It is a threshold rather than a boundary, and both sides of it cost
/// something. Above it, a run this long can be deliberate: an aligned TOML
/// sample whose keys are short and whose values are far right, or a usage block
/// laying out a flag against its description. Both are alignment after a word
/// on the same line, which is exactly the shape being matched. Below it, a weld
/// from a literal that started near the left margin is six spaces and walks
/// past.
///
/// Eight is the number that let both observed defects be caught with no false
/// positive in this crate. It is not a claim that nothing between four and
/// eight is ever a weld, nor that nothing above eight is ever intended.
const RUN: usize = 8;

/// One offending literal: the line it sits on and the text around the run.
#[derive(Debug, PartialEq, Eq)]
struct Run {
    line:    usize,
    excerpt: String,
}

/// Find runs of [`RUN`] spaces sitting mid-sentence inside a string literal.
///
/// Mid-sentence is the whole of it. A literal that lays out a bullet or a
/// sample indents after a line break, and that is somebody's intent; a
/// continuation whose backslash was eaten leaves the next line's indentation
/// welded to the end of the previous word, with no break in front of it. So the
/// question is not whether spaces are present but whether anything precedes
/// them on their own line inside the literal.
fn mid_sentence_runs(src: &str) -> Vec<Run> {
    let b: Vec<char> = src.chars().collect();
    let mut found = Vec::new();
    let mut i = 0usize;
    let mut line = 1usize;
    while i < b.len() {
        let c = b[i];
        if c == '\n' {
            line += 1;
            i += 1;
        } else if c == '/' && b.get(i + 1) == Some(&'/') {
            while i < b.len() && b[i] != '\n' {
                i += 1;
            }
        } else if c == '/' && b.get(i + 1) == Some(&'*') {
            i += 2;
            while i < b.len() && !(b[i] == '*' && b.get(i + 1) == Some(&'/')) {
                if b[i] == '\n' {
                    line += 1;
                }
                i += 1;
            }
            i = (i + 2).min(b.len());
        } else if c == 'r' && matches!(b.get(i + 1), Some('"') | Some('#')) {
            let mut hashes = 0usize;
            let mut j = i + 1;
            while b.get(j) == Some(&'#') {
                hashes += 1;
                j += 1;
            }
            if b.get(j) != Some(&'"') {
                i += 1;
                continue;
            }
            // Raw literals carry samples and fixtures and have no escapes, so
            // the scan runs over them with real newlines as the only breaks.
            i = j + 1;
            let close: String = std::iter::once('"')
                .chain(std::iter::repeat('#').take(hashes))
                .collect();
            let start = i;
            while i < b.len() {
                if b[i] == '"' && b[i ..].iter().take(close.len()).copied().eq(close.chars()) {
                    break;
                }
                i += 1;
            }
            let body: String = b[start .. i.min(b.len())].iter().collect();
            found.extend(runs_in_body(&body, line));
            line += body.matches('\n').count();
            i = (i + close.len()).min(b.len());
        } else if c == '\'' {
            // A char literal or a lifetime. Only the first can hold a quote, so
            // stepping over it matters; a lifetime is one identifier and the
            // scan may simply walk on through it.
            let one_char_then_quote = b.get(i + 2) == Some(&'\'');
            if b.get(i + 1) == Some(&'\\') || one_char_then_quote {
                i += 1;
                while i < b.len() && b[i] != '\'' {
                    i += if b[i] == '\\' { 2 } else { 1 };
                }
            }
            i += 1;
        } else if c == '"' {
            i += 1;
            let mut body = String::new();
            let mut source_newlines = 0usize;
            while i < b.len() && b[i] != '"' {
                if b[i] == '\\' {
                    match b.get(i + 1) {
                        // The correct form: the backslash eats the newline and
                        // the next line's indentation with it.
                        Some('\n') => {
                            source_newlines += 1;
                            i += 2;
                            while i < b.len() && (b[i] == ' ' || b[i] == '\t') {
                                i += 1;
                            }
                            continue;
                        },
                        Some('n') => body.push('\n'),
                        _ => body.push('\u{0}'),
                    }
                    i += 2;
                    continue;
                }
                if b[i] == '\n' {
                    // A real newline inside a non-raw literal is not a break in
                    // anybody's layout. It is the same weld the dropped
                    // backslash makes, with the backslash never written rather
                    // than eaten, and the indentation that follows it lands
                    // mid-sentence exactly the same way. So it is not passed
                    // through as a newline: doing that made `runs_in_body` read
                    // the indentation as a line's own, which is deliberate, and
                    // walk past the larger half of the class.
                    //
                    // An escaped `\n` is the opposite and keeps its newline
                    // above, because somebody typed it and what follows it is
                    // layout.
                    source_newlines += 1;
                    body.push('\u{0}');
                    i += 1;
                    continue;
                }
                body.push(b[i]);
                i += 1;
            }
            found.extend(runs_in_body(&body, line));
            line += source_newlines;
            i += 1;
        } else {
            i += 1;
        }
    }
    found
}

fn runs_in_body(body: &str, line: usize) -> Vec<Run> {
    let mut out = Vec::new();
    for segment in body.split('\n') {
        let trimmed = segment.trim_start();
        // What was cut off the front is the literal's own indentation, which is
        // deliberate. Anything past the first word is not.
        let Some(offset) = segment.len().checked_sub(trimmed.len()) else {
            continue;
        };
        let mut run = 0usize;
        let mut seen_word = false;
        for (idx, ch) in trimmed.char_indices() {
            if ch == ' ' {
                run += 1;
                if run >= RUN && seen_word {
                    let at = offset + idx + 1;
                    let from = at.saturating_sub(40);
                    out.push(Run {
                        line,
                        excerpt: segment[from .. (at + 20).min(segment.len())].to_string(),
                    });
                    break;
                }
            } else {
                run = 0;
                seen_word = true;
            }
        }
    }
    out
}

#[test]
fn the_scan_finds_a_dropped_continuation_and_leaves_a_deliberate_indent_alone() {
    // The control, and it is the whole reason the scan is trustworthy. Without
    // it a scanner that never matches anything reports a clean crate forever.
    let dropped = r#"fn f() { let _ = "the pin has no tag: this tool's hook                      returned nothing."; }"#;
    let found = mid_sentence_runs(dropped);
    assert_eq!(
        found.len(),
        1,
        "the scan missed a dropped continuation: {found:?}"
    );
    assert_eq!(found[0].line, 1);

    let continued = "fn f() { let _ = \"the pin has no tag: this tool's hook \\\n                     returned nothing.\"; }";
    assert_eq!(
        mid_sentence_runs(continued),
        vec![],
        "the scan flagged a correctly continued literal, so it is measuring the wrong thing"
    );

    let indented = r#"fn f() { let _ = "candidates:\n    - one\n    - two"; }"#;
    assert_eq!(
        mid_sentence_runs(indented),
        vec![],
        "the scan flagged an indent that follows a line break, which is somebody's layout"
    );

    let raw = "fn f() { let _ = r#\"[table]\n    key = 1\n\"#; }";
    assert_eq!(
        mid_sentence_runs(raw),
        vec![],
        "the scan flagged an indented line inside a raw fixture"
    );

    let commented = "// a comment mentioning a hook                      and a gap\nfn f() {}";
    assert_eq!(
        mid_sentence_runs(commented),
        vec![],
        "the scan read a comment as a literal"
    );
}

#[test]
fn a_newline_written_into_a_literal_is_a_weld_and_one_that_was_escaped_is_layout() {
    // The larger half of the class.
    // A backslash that was never written leaves a real newline in the literal
    // and the next line's indentation welded on behind it, which reads exactly
    // as the dropped-backslash case does to whoever gets the message.
    let welded = "fn f() { let _ = \"this tool's hook\n                     returned nothing.\"; }";
    let found = mid_sentence_runs(welded);
    assert_eq!(
        found.len(),
        1,
        "a real newline inside a literal was read as somebody's layout: {found:?}"
    );

    // And the control, on the same axis, because a scan that flagged both would
    // report every multi-line message in the crate. An escaped `\n` is typed on
    // purpose and what follows it is a bullet, a sample, a column.
    let escaped = r#"fn f() { let _ = "tried:\n                     the registry\n                     the tag"; }"#;
    assert_eq!(
        mid_sentence_runs(escaped),
        vec![],
        "an escaped newline's indentation was read as a weld"
    );
}
