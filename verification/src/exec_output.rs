//! The output of an executed command, and the head-and-tail summary of it
//! that is handed to the model: at most `MODEL_FORMAT_MAX_LINES` lines and
//! `MODEL_FORMAT_MAX_BYTES` bytes.
use vstd::prelude::*;
use vstd::utf8::encode_utf8;
use crate::path::chars_list_view;
use crate::text::{
    bytes_prefix, bytes_suffix, chars_of, decimal_chars, join_lines, lemma_prefix_fit,
    lemma_suffix_fit, lemma_utf8_len_concat, lemma_utf8_len_is_encoding_len, push_chars, push_str_chars, spec_decimal,
    spec_join_lines, spec_lines, split_lines, string_from_chars, take_prefix_chars,
    take_suffix_chars, utf8_len, utf8_len_capped, lemma_decimal_len, lemma_join_lines_ends_with_last,
    lemma_suffix_fit_at_least, lemma_utf8_len_at_most_four_per_char, pow10,
};

verus! {

broadcast use vstd::string::group_string_axioms;

/// Most bytes of output that the model is shown.
pub const MODEL_FORMAT_MAX_BYTES: usize = 10 * 1024;

/// Most lines of output that the model is shown.
pub const MODEL_FORMAT_MAX_LINES: usize = 256;

/// Lines kept from the start of a truncated output.
pub const MODEL_FORMAT_HEAD_LINES: usize = MODEL_FORMAT_MAX_LINES / 2;

/// Lines kept from the end of a truncated output.
pub const MODEL_FORMAT_TAIL_LINES: usize = MODEL_FORMAT_MAX_LINES - MODEL_FORMAT_HEAD_LINES;

/// Bytes kept from the start of a truncated output.
pub const MODEL_FORMAT_HEAD_BYTES: usize = MODEL_FORMAT_MAX_BYTES / 2;

/// One captured output stream.
#[derive(Debug, Clone, Default)]
pub struct StreamOutput {
    pub text: String,
    pub truncated_after_lines: Option<u32>,
}

impl StreamOutput {
    /// A stream that holds `text` and was not truncated.
    pub fn new(text: String) -> (r: Self)
        ensures
            r.text == text,
            r.truncated_after_lines is None,
    {
        StreamOutput { text, truncated_after_lines: None }
    }
}

/// What an executed command produced.
#[derive(Debug, Default)]
pub struct ExecToolCallOutput {
    pub exit_code: i32,
    pub stdout: StreamOutput,
    pub stderr: StreamOutput,
    pub aggregated_output: StreamOutput,
    pub duration: std::time::Duration,
}

/// The duration of `ms` milliseconds, as `std::time::Duration::from_millis`
/// gives it.
pub uninterp spec fn spec_duration_from_millis(ms: u64) -> std::time::Duration;

/// `std::time::Duration::from_millis`: the contract claims only that the
/// result is a function of `ms` alone (a `Duration` is opaque here).
#[verifier::external_body]
fn duration_from_millis(ms: u64) -> (d: std::time::Duration)
    ensures
        d == spec_duration_from_millis(ms),
{
    std::time::Duration::from_millis(ms)
}

/// The output of a command that printed `text`, exited with 0 and ran for
/// 1234 milliseconds.
pub fn make_aggregated_output(text: &str) -> (r: ExecToolCallOutput)
    ensures
        r.aggregated_output.text@ == text@,
        r.aggregated_output.truncated_after_lines is None,
        r.exit_code == 0,
        r.duration == spec_duration_from_millis(1234),
        r.stdout.text@.len() == 0,
        r.stdout.truncated_after_lines is None,
        r.stderr.text@.len() == 0,
        r.stderr.truncated_after_lines is None,
{
    let cs = chars_of(text);
    ExecToolCallOutput {
        exit_code: 0,
        stdout: StreamOutput::new(String::new()),
        stderr: StreamOutput::new(String::new()),
        aggregated_output: StreamOutput::new(string_from_chars(&cs)),
        duration: duration_from_millis(1234),
    }
}

/// The line that stands between the head and the tail of a truncated output.
pub open spec fn spec_marker(omitted: nat, total: nat) -> Seq<char> {
    "\n[... omitted "@ + spec_decimal(omitted) + " of "@ + spec_decimal(total) + " lines ...]\n\n"@
}

/// `a - b`, or 0 where `b` is larger.
pub open spec fn sat_sub(a: nat, b: nat) -> nat {
    if b <= a {
        (a - b) as nat
    } else {
        0
    }
}

/// Head, marker and tail within the byte budget: the marker alone (clipped)
/// where it does not fit beside the head budget; otherwise as much of the head
/// as fits its budget (shrunk to make room for the marker where needed), the
/// marker, then as much of the end of the tail as fits what is left.
pub open spec fn spec_assemble(head_block: Seq<char>, tail_block: Seq<char>, marker: Seq<char>) -> Seq<char> {
    let max = MODEL_FORMAT_MAX_BYTES as nat;
    let m = utf8_len(marker);
    let tail_budget = sat_sub(max, MODEL_FORMAT_HEAD_BYTES as nat + m);
    if tail_budget == 0 && m >= max {
        bytes_prefix(marker, max)
    } else {
        let head_budget = if tail_budget == 0 {
            sat_sub(max, m)
        } else {
            MODEL_FORMAT_HEAD_BYTES as nat
        };
        let prefix = bytes_prefix(head_block, head_budget) + marker;
        prefix + bytes_suffix(tail_block, sat_sub(max, utf8_len(prefix)))
    }
}

/// The summary of the output `s` shown to the model: `s` itself where it
/// is within both limits; otherwise its first and last lines around a
/// marker that counts the omitted lines, within the byte budget.
pub open spec fn spec_format_exec_output(s: Seq<char>) -> Seq<char> {
    let lines = spec_lines(s);
    let total = lines.len();
    if utf8_len(s) <= MODEL_FORMAT_MAX_BYTES && total <= MODEL_FORMAT_MAX_LINES {
        s
    } else {
        let head_take: nat = if MODEL_FORMAT_HEAD_LINES <= total {
            MODEL_FORMAT_HEAD_LINES as nat
        } else {
            total
        };
        let rest = sat_sub(total, head_take);
        let tail_take: nat = if MODEL_FORMAT_TAIL_LINES <= rest {
            MODEL_FORMAT_TAIL_LINES as nat
        } else {
            rest
        };
        let omitted = sat_sub(total, head_take + tail_take);
        spec_assemble(
            spec_join_lines(lines.take(head_take as int)),
            spec_join_lines(lines.skip(total - tail_take)),
            spec_marker(omitted, total),
        )
    }
}

/// The assembled summary never exceeds the byte budget.
pub proof fn lemma_assemble_within_budget(
    head_block: Seq<char>,
    tail_block: Seq<char>,
    marker: Seq<char>,
)
    ensures
        utf8_len(spec_assemble(head_block, tail_block, marker)) <= MODEL_FORMAT_MAX_BYTES,
{
    let max = MODEL_FORMAT_MAX_BYTES as nat;
    let m = utf8_len(marker);
    let tail_budget = sat_sub(max, MODEL_FORMAT_HEAD_BYTES as nat + m);
    if tail_budget == 0 && m >= max {
        lemma_prefix_fit(marker, max);
    } else {
        let head_budget = if tail_budget == 0 {
            sat_sub(max, m)
        } else {
            MODEL_FORMAT_HEAD_BYTES as nat
        };
        let head_part = bytes_prefix(head_block, head_budget);
        lemma_prefix_fit(head_block, head_budget);
        let prefix = head_part + marker;
        lemma_utf8_len_concat(head_part, marker);
        let remaining = sat_sub(max, utf8_len(prefix));
        lemma_suffix_fit(tail_block, remaining);
        lemma_utf8_len_concat(prefix, bytes_suffix(tail_block, remaining));
    }
}

/// The summary of an output is within the byte budget, and an output within
/// both limits is shown unchanged.
pub proof fn lemma_format_exec_output(s: Seq<char>)
    ensures
        utf8_len(spec_format_exec_output(s)) <= MODEL_FORMAT_MAX_BYTES,
        utf8_len(s) <= MODEL_FORMAT_MAX_BYTES && spec_lines(s).len() <= MODEL_FORMAT_MAX_LINES
            ==> spec_format_exec_output(s) == s,
{
    let lines = spec_lines(s);
    let total = lines.len();
    if !(utf8_len(s) <= MODEL_FORMAT_MAX_BYTES && total <= MODEL_FORMAT_MAX_LINES) {
        let head_take: nat = if MODEL_FORMAT_HEAD_LINES <= total {
            MODEL_FORMAT_HEAD_LINES as nat
        } else {
            total
        };
        let rest = sat_sub(total, head_take);
        let tail_take: nat = if MODEL_FORMAT_TAIL_LINES <= rest {
            MODEL_FORMAT_TAIL_LINES as nat
        } else {
            rest
        };
        let omitted = sat_sub(total, head_take + tail_take);
        lemma_assemble_within_budget(
            spec_join_lines(lines.take(head_take as int)),
            spec_join_lines(lines.skip(total - tail_take)),
            spec_marker(omitted, total),
        );
    }
}

/// Formats the aggregated output of a command for the model: unchanged
/// within `MODEL_FORMAT_MAX_BYTES` bytes and `MODEL_FORMAT_MAX_LINES` lines;
/// otherwise the first `MODEL_FORMAT_HEAD_LINES` and last
/// `MODEL_FORMAT_TAIL_LINES` lines around a marker
/// `[... omitted N of M lines ...]`, cut at character boundaries to fit the
/// byte budget.
pub fn format_exec_output_str(exec_output: &ExecToolCallOutput) -> (r: String)
    ensures
        r@ == spec_format_exec_output(exec_output.aggregated_output.text@),
        utf8_len(r@) <= MODEL_FORMAT_MAX_BYTES,
        encode_utf8(r@).len() <= MODEL_FORMAT_MAX_BYTES,
        utf8_len(exec_output.aggregated_output.text@) <= MODEL_FORMAT_MAX_BYTES && spec_lines(
            exec_output.aggregated_output.text@,
        ).len() <= MODEL_FORMAT_MAX_LINES ==> r@ == exec_output.aggregated_output.text@,
{
    let ghost sv = exec_output.aggregated_output.text@;
    proof {
        lemma_format_exec_output(sv);
        lemma_utf8_len_is_encoding_len(spec_format_exec_output(sv));
    }
    let cs = chars_of(exec_output.aggregated_output.text.as_str());
    let lines = split_lines(&cs);
    let ghost lv = chars_list_view(lines@);
    let total_lines = lines.len();
    let byte_len = utf8_len_capped(&cs, MODEL_FORMAT_MAX_BYTES + 1);
    if byte_len <= MODEL_FORMAT_MAX_BYTES && total_lines <= MODEL_FORMAT_MAX_LINES {
        return string_from_chars(&cs);
    }
    let head_take = if MODEL_FORMAT_HEAD_LINES <= total_lines {
        MODEL_FORMAT_HEAD_LINES
    } else {
        total_lines
    };
    let rest = total_lines - head_take;
    let tail_take = if MODEL_FORMAT_TAIL_LINES <= rest {
        MODEL_FORMAT_TAIL_LINES
    } else {
        rest
    };
    let omitted = total_lines - (head_take + tail_take);
    let head_block = join_lines(&lines, 0, head_take);
    let tail_block = join_lines(&lines, total_lines - tail_take, total_lines);
    assert(lv.subrange(0, head_take as int) =~= lv.take(head_take as int));
    assert(lv.subrange(total_lines - tail_take, total_lines as int) =~= lv.skip(
        total_lines - tail_take,
    ));
    let mut marker: Vec<char> = Vec::new();
    push_str_chars(&mut marker, "\n[... omitted ");
    let omitted_digits = decimal_chars(omitted);
    push_chars(&mut marker, &omitted_digits);
    push_str_chars(&mut marker, " of ");
    let total_digits = decimal_chars(total_lines);
    push_chars(&mut marker, &total_digits);
    push_str_chars(&mut marker, " lines ...]\n\n");
    assert(marker@ =~= spec_marker(omitted as nat, total_lines as nat));
    let m = utf8_len_capped(&marker, MODEL_FORMAT_MAX_BYTES + 1);
    let mut head_budget = MODEL_FORMAT_HEAD_BYTES;
    let tail_budget = MODEL_FORMAT_MAX_BYTES.saturating_sub(head_budget + m);
    if tail_budget == 0 && m >= MODEL_FORMAT_MAX_BYTES {
        let clipped = take_prefix_chars(&marker, MODEL_FORMAT_MAX_BYTES);
        return string_from_chars(&clipped);
    }
    if tail_budget == 0 {
        head_budget = MODEL_FORMAT_MAX_BYTES.saturating_sub(m);
    }
    let mut result = take_prefix_chars(&head_block, head_budget);
    proof {
        lemma_prefix_fit(head_block@, head_budget as nat);
        lemma_utf8_len_concat(result@, marker@);
    }
    push_chars(&mut result, &marker);
    let used = utf8_len_capped(&result, MODEL_FORMAT_MAX_BYTES + 1);
    let remaining = MODEL_FORMAT_MAX_BYTES.saturating_sub(used);
    let tail_part = take_suffix_chars(&tail_block, remaining);
    push_chars(&mut result, &tail_part);
    string_from_chars(&result)
}

/// How many lines the marker of a truncated output reports as omitted:
/// those beyond `MODEL_FORMAT_MAX_LINES`, and none when the output was cut
/// for its bytes alone.
pub open spec fn expected_omitted(total: nat) -> nat {
    if total > MODEL_FORMAT_MAX_LINES {
        (total - MODEL_FORMAT_MAX_LINES) as nat
    } else {
        0
    }
}

/// The marker of an output with fewer than a million lines is short.
proof fn lemma_marker_short(omitted: nat, total: nat)
    requires
        omitted <= total,
        total < 1_000_000,
    ensures
        utf8_len(spec_marker(omitted, total)) <= 172,
{
    reveal_strlit("\n[... omitted ");
    reveal_strlit(" of ");
    reveal_strlit(" lines ...]\n\n");
    assert(pow10(0) == 1);
    assert(pow10(1) == 10);
    assert(pow10(2) == 100);
    assert(pow10(3) == 1000);
    assert(pow10(4) == 10000);
    assert(pow10(5) == 100000);
    assert(pow10(6) == 1_000_000);
    lemma_decimal_len(omitted, 6);
    lemma_decimal_len(total, 6);
    lemma_utf8_len_at_most_four_per_char(spec_marker(omitted, total));
}

/// A truncated output (of fewer than a million lines) is summarized with
/// the marker that counts the lines beyond `MODEL_FORMAT_MAX_LINES` as
/// omitted (none when only the bytes were too many); and where the output
/// has more lines than the head keeps and its last line has at most 4096
/// bytes, the summary ends with that last line.
pub proof fn law_truncated_summary_keeps_marker_and_last_line(s: Seq<char>)
    requires
        !(utf8_len(s) <= MODEL_FORMAT_MAX_BYTES && spec_lines(s).len() <= MODEL_FORMAT_MAX_LINES),
        spec_lines(s).len() < 1_000_000,
    ensures
        ({
            let r = spec_format_exec_output(s);
            let m = spec_marker(expected_omitted(spec_lines(s).len()), spec_lines(s).len());
            exists|k: int| 0 <= k && k + m.len() <= r.len() && #[trigger] r.subrange(k, k + m.len()) == m
        }),
        spec_lines(s).len() > MODEL_FORMAT_HEAD_LINES && utf8_len(spec_lines(s).last()) <= 4096 ==> {
            let r = spec_format_exec_output(s);
            let last = spec_lines(s).last();
            r.len() >= last.len() && r.skip(r.len() - last.len()) == last
        },
{
    let lines = spec_lines(s);
    let total = lines.len();
    let head_take: nat = if MODEL_FORMAT_HEAD_LINES <= total {
        MODEL_FORMAT_HEAD_LINES as nat
    } else {
        total
    };
    let rest = sat_sub(total, head_take);
    let tail_take: nat = if MODEL_FORMAT_TAIL_LINES <= rest {
        MODEL_FORMAT_TAIL_LINES as nat
    } else {
        rest
    };
    let omitted = sat_sub(total, head_take + tail_take);
    assert(omitted == expected_omitted(total));
    let head_block = spec_join_lines(lines.take(head_take as int));
    let tail_block = spec_join_lines(lines.skip(total - tail_take));
    let m = spec_marker(omitted, total);
    lemma_marker_short(omitted, total);
    let max = MODEL_FORMAT_MAX_BYTES as nat;
    let ml = utf8_len(m);
    assert(sat_sub(max, MODEL_FORMAT_HEAD_BYTES as nat + ml) > 0);
    let head_part = bytes_prefix(head_block, MODEL_FORMAT_HEAD_BYTES as nat);
    lemma_prefix_fit(head_block, MODEL_FORMAT_HEAD_BYTES as nat);
    let prefix = head_part + m;
    lemma_utf8_len_concat(head_part, m);
    let remaining = sat_sub(max, utf8_len(prefix));
    let suffix = bytes_suffix(tail_block, remaining);
    let r = prefix + suffix;
    assert(r == spec_format_exec_output(s));
    let k = head_part.len() as int;
    assert(r.subrange(k, k + m.len()) =~= m);
    if total > MODEL_FORMAT_HEAD_LINES && utf8_len(lines.last()) <= 4096 {
        let tail_lines = lines.skip(total - tail_take);
        assert(tail_take >= 1);
        assert(tail_lines.last() == lines.last());
        lemma_join_lines_ends_with_last(tail_lines);
        let last = lines.last();
        assert(remaining >= 4096);
        lemma_suffix_fit_at_least(tail_block, remaining, last.len());
        lemma_suffix_fit(tail_block, remaining);
        assert(suffix.skip(suffix.len() - last.len()) =~= tail_block.skip(
            tail_block.len() - last.len(),
        ));
        assert(r.skip(r.len() - last.len()) =~= suffix.skip(suffix.len() - last.len()));
    }
}

} // verus!
