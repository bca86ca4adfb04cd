//! The aggregate as metrics exposition text: two header lines, then four
//! sample lines for each player.

use crate::domain::{KnownAggregatedPlayerData, Player, Row};
use crate::error::RenderError;
use vstd::prelude::*;
use vstd::string::*;

verus! {

/// The character of a decimal digit.
pub open spec fn digit(d: nat) -> char {
    if d == 0 {
        '0'
    } else if d == 1 {
        '1'
    } else if d == 2 {
        '2'
    } else if d == 3 {
        '3'
    } else if d == 4 {
        '4'
    } else if d == 5 {
        '5'
    } else if d == 6 {
        '6'
    } else if d == 7 {
        '7'
    } else if d == 8 {
        '8'
    } else {
        '9'
    }
}

/// A number in base 10, without sign or leading zeros.
pub open spec fn decimal(value: nat) -> Seq<char>
    decreases value,
{
    if value < 10 {
        seq![digit(value)]
    } else {
        decimal(value / 10).push(digit(value % 10))
    }
}

/// The first header line: what the metric family is.
pub open spec fn help_line() -> Seq<char> {
    "# HELP player_data Player metrics, partitioned by uuid and kind"@
}

/// The second header line: the metric family is a gauge.
pub open spec fn type_line() -> Seq<char> {
    "# TYPE player_data gauge"@
}

/// One sample: the metric's name, the identity and the kind as labels, a
/// space and the count.
pub open spec fn sample_line(id: Seq<char>, kind: Seq<char>, value: u64) -> Seq<char> {
    "player_data{uuid=\""@ + id + "\",kind=\""@ + kind + "\"} "@ + decimal(value as nat)
}

/// The four samples of one player: break count, build count, play ticks,
/// vote count.
pub open spec fn player_lines(row: Row) -> Seq<Seq<char>> {
    seq![
        sample_line(row.0, "break_count"@, row.1.break_count),
        sample_line(row.0, "build_count"@, row.1.build_count),
        sample_line(row.0, "play_ticks"@, row.1.play_ticks),
        sample_line(row.0, "vote_count"@, row.1.vote_count),
    ]
}

/// The lines of the presentation: the header, then the samples of each
/// player in the order of the rows.
pub open spec fn lines_of(rows: Seq<Row>) -> Seq<Seq<char>>
    decreases rows.len(),
{
    if rows.len() == 0 {
        seq![help_line(), type_line()]
    } else {
        lines_of(rows.drop_last()) + player_lines(rows.last())
    }
}

/// The text of lines, each followed by a line feed.
pub open spec fn terminated(lines: Seq<Seq<char>>) -> Seq<char>
    decreases lines.len(),
{
    if lines.len() == 0 {
        Seq::empty()
    } else {
        terminated(lines.drop_last()) + lines.last().push('\n')
    }
}

/// The presentation of an aggregate.
pub open spec fn presentation(rows: Seq<Row>) -> Seq<char> {
    terminated(lines_of(rows))
}

/// The largest size that is set aside for a text ahead of time.
pub const MAX_PRESIZED_TEXT: usize = usize::MAX / 2;

/// `String::with_capacity`. Taken on trust: the new string is empty. The
/// outside function panics where the capacity is more than `isize::MAX`
/// bytes.
#[verifier::external_body]
fn string_with_capacity(capacity: usize) -> (text: String)
    requires
        capacity <= usize::MAX / 2,
    ensures
        text@ == Seq::<char>::empty(),
{
    String::with_capacity(capacity)
}

/// The size to set aside for the presentation: 100 characters for the
/// header and 340 for each player, four samples of about 85 characters. Where
/// that is more than can be set aside, the most that can.
pub fn estimate_presented_string_size(data: &KnownAggregatedPlayerData) -> (size: usize)
    ensures
        size == if 100 + data@.len() * 340 <= MAX_PRESIZED_TEXT {
            100 + data@.len() * 340
        } else {
            MAX_PRESIZED_TEXT as nat
        },
{
    let players = data.len();
    if players <= (MAX_PRESIZED_TEXT - 100) / 340 {
        100 + players * 340
    } else {
        MAX_PRESIZED_TEXT
    }
}

/// The text of one decimal digit.
fn digit_text(d: u64) -> (text: &'static str)
    requires
        d < 10,
    ensures
        text@ == seq![digit(d as nat)],
{
    proof {
        reveal_strlit("0");
        reveal_strlit("1");
        reveal_strlit("2");
        reveal_strlit("3");
        reveal_strlit("4");
        reveal_strlit("5");
        reveal_strlit("6");
        reveal_strlit("7");
        reveal_strlit("8");
        reveal_strlit("9");
    }
    let text = if d == 0 {
        "0"
    } else if d == 1 {
        "1"
    } else if d == 2 {
        "2"
    } else if d == 3 {
        "3"
    } else if d == 4 {
        "4"
    } else if d == 5 {
        "5"
    } else if d == 6 {
        "6"
    } else if d == 7 {
        "7"
    } else if d == 8 {
        "8"
    } else {
        "9"
    };
    assert(text@ =~= seq![digit(d as nat)]);
    text
}

/// Appends a number in base 10.
pub fn write_decimal(target: &mut String, value: u64)
    ensures
        final(target)@ == old(target)@ + decimal(value as nat),
    decreases value,
{
    if value >= 10 {
        write_decimal(target, value / 10);
    }
    target.append(digit_text(value % 10));
    assert(target@ =~= old(target)@ + decimal(value as nat));
}

/// Appends one sample line, line feed included.
pub fn write_record(target: &mut String, player: &Player, kind: &str, value: u64) -> (r: Result<
    (),
    RenderError,
>)
    ensures
        r is Ok,
        final(target)@ == old(target)@ + sample_line(player.uuid@, kind@, value).push('\n'),
{
    let uuid = match player.uuid.as_str() {
        Ok(uuid) => uuid,
        Err(_) => {
            return Err(RenderError::EncodingError);
        },
    };
    target.append("player_data{uuid=\"");
    target.append(uuid);
    target.append("\",kind=\"");
    target.append(kind);
    target.append("\"} ");
    write_decimal(target, value);
    target.append("\n");
    proof {
        reveal_strlit("\n");
        assert(target@ =~= old(target)@ + sample_line(player.uuid@, kind@, value).push('\n'));
    }
    Ok(())
}

/// Renders the aggregate: the two header lines, then for each player, in the
/// order of the aggregate, the four samples.
pub fn present_player_data_as_prometheus_metrics(data: &KnownAggregatedPlayerData) -> (r: Result<
    String,
    RenderError,
>)
    ensures
        r is Ok,
        r->Ok_0@ == presentation(data@),
{
    let mut result = string_with_capacity(estimate_presented_string_size(data));
    result.append("# HELP player_data Player metrics, partitioned by uuid and kind");
    result.append("\n");
    result.append("# TYPE player_data gauge");
    result.append("\n");
    proof {
        reveal_strlit("\n");
        let header = seq![help_line(), type_line()];
        assert(header.drop_last() =~= seq![help_line()]);
        lemma_terminated_one(help_line());
        assert(data@.take(0) =~= Seq::<Row>::empty());
        assert(result@ =~= presentation(data@.take(0)));
    }
    let players = data.len();
    let mut i: usize = 0;
    while i < players
        invariant
            i <= players,
            players == data@.len(),
            result@ == presentation(data@.take(i as int)),
        decreases players - i,
    {
        match data.get_index(i) {
            Some((player, counts)) => {
                let ghost before = result@;
                match write_record(&mut result, &player, "break_count", counts.break_count) {
                    Ok(()) => {},
                    Err(e) => {
                        return Err(e);
                    },
                }
                match write_record(&mut result, &player, "build_count", counts.build_count) {
                    Ok(()) => {},
                    Err(e) => {
                        return Err(e);
                    },
                }
                match write_record(&mut result, &player, "play_ticks", counts.play_ticks) {
                    Ok(()) => {},
                    Err(e) => {
                        return Err(e);
                    },
                }
                match write_record(&mut result, &player, "vote_count", counts.vote_count) {
                    Ok(()) => {},
                    Err(e) => {
                        return Err(e);
                    },
                }
                proof {
                    let rows = data@.take(i + 1);
                    assert(rows.drop_last() =~= data@.take(i as int));
                    assert(rows.last() == data@[i as int]);
                    lemma_terminated_concat(lines_of(rows.drop_last()), player_lines(rows.last()));
                    lemma_terminated_player_lines(rows.last());
                    assert(result@ =~= before + terminated(player_lines(rows.last())));
                }
            },
            None => {},
        }
        i += 1;
    }
    proof {
        assert(data@.take(i as int) =~= data@);
    }
    Ok(result)
}

/// The text of one line is the line and a line feed.
pub proof fn lemma_terminated_one(line: Seq<char>)
    ensures
        terminated(seq![line]) == line.push('\n'),
{
    assert(terminated(seq![line].drop_last()) =~= Seq::<char>::empty());
}

/// The text of two runs of lines is the text of the first followed by that of
/// the second.
pub proof fn lemma_terminated_concat(first: Seq<Seq<char>>, second: Seq<Seq<char>>)
    ensures
        terminated(first + second) == terminated(first) + terminated(second),
    decreases second.len(),
{
    if second.len() == 0 {
        assert(first + second =~= first);
    } else {
        assert((first + second).drop_last() =~= first + second.drop_last());
        lemma_terminated_concat(first, second.drop_last());
    }
}

/// The text of the four samples of one player.
proof fn lemma_terminated_player_lines(row: Row)
    ensures
        terminated(player_lines(row)) == sample_line(row.0, "break_count"@, row.1.break_count).push(
            '\n',
        ) + sample_line(row.0, "build_count"@, row.1.build_count).push('\n') + sample_line(
            row.0,
            "play_ticks"@,
            row.1.play_ticks,
        ).push('\n') + sample_line(row.0, "vote_count"@, row.1.vote_count).push('\n'),
{
    let l = player_lines(row);
    let l3 = l.drop_last();
    let l2 = l3.drop_last();
    let l1 = l2.drop_last();
    assert(l1 =~= seq![l[0]]);
    lemma_terminated_one(l[0]);
    assert(terminated(l2) =~= l[0].push('\n') + l[1].push('\n'));
    assert(terminated(l3) =~= l[0].push('\n') + l[1].push('\n') + l[2].push('\n'));
}


/// Whether a text holds no line feed.
pub open spec fn single_line(text: Seq<char>) -> bool {
    forall|i: int| 0 <= i < text.len() ==> text[i] != '\n'
}

/// The number of line feeds in a text.
pub open spec fn line_feeds(text: Seq<char>) -> nat
    decreases text.len(),
{
    if text.len() == 0 {
        0
    } else if text.last() == '\n' {
        line_feeds(text.drop_last()) + 1
    } else {
        line_feeds(text.drop_last())
    }
}

/// Neither header line holds a line feed.
proof fn lemma_header_lines_single()
    ensures
        single_line(help_line()),
        single_line(type_line()),
{
    reveal_strlit("# HELP player_data Player metrics, partitioned by uuid and kind");
    reveal_strlit("# TYPE player_data gauge");
}


/// A number in base 10 holds no line feed.
proof fn lemma_decimal_single(value: nat)
    ensures
        single_line(decimal(value)),
    decreases value,
{
    if value >= 10 {
        lemma_decimal_single(value / 10);
    }
}

/// A sample of an identity and a kind without line feed holds none.
proof fn lemma_sample_line_single(id: Seq<char>, kind: Seq<char>, value: u64)
    requires
        single_line(id),
        single_line(kind),
    ensures
        single_line(sample_line(id, kind, value)),
{
    reveal_strlit("player_data{uuid=\"");
    reveal_strlit("\",kind=\"");
    reveal_strlit("\"} ");
    lemma_decimal_single(value as nat);
}

/// The four samples of an identity without line feed hold none.
proof fn lemma_player_lines_single(row: Row)
    requires
        single_line(row.0),
    ensures
        forall|k: int| 0 <= k < 4 ==> single_line(#[trigger] player_lines(row)[k]),
{
    reveal_strlit("break_count");
    reveal_strlit("build_count");
    reveal_strlit("play_ticks");
    reveal_strlit("vote_count");
    lemma_sample_line_single(row.0, "break_count"@, row.1.break_count);
    lemma_sample_line_single(row.0, "build_count"@, row.1.build_count);
    lemma_sample_line_single(row.0, "play_ticks"@, row.1.play_ticks);
    lemma_sample_line_single(row.0, "vote_count"@, row.1.vote_count);
}

/// The line feeds of two texts in a row are those of the one and of the
/// other.
proof fn lemma_line_feeds_concat(first: Seq<char>, second: Seq<char>)
    ensures
        line_feeds(first + second) == line_feeds(first) + line_feeds(second),
    decreases second.len(),
{
    if second.len() == 0 {
        assert(first + second =~= first);
    } else {
        assert((first + second).drop_last() =~= first + second.drop_last());
        lemma_line_feeds_concat(first, second.drop_last());
    }
}

/// A text that holds no line feed has 0 of them.
proof fn lemma_line_feeds_none(text: Seq<char>)
    requires
        single_line(text),
    ensures
        line_feeds(text) == 0,
    decreases text.len(),
{
    if text.len() > 0 {
        lemma_line_feeds_none(text.drop_last());
    }
}

/// A text of lines that hold no line feed has as many line feeds as lines.
proof fn lemma_line_feeds_of_lines(lines: Seq<Seq<char>>)
    requires
        forall|k: int| 0 <= k < lines.len() ==> single_line(#[trigger] lines[k]),
    ensures
        line_feeds(terminated(lines)) == lines.len(),
    decreases lines.len(),
{
    if lines.len() > 0 {
        let line = lines.last();
        lemma_line_feeds_of_lines(lines.drop_last());
        lemma_line_feeds_concat(terminated(lines.drop_last()), line.push('\n'));
        assert(line.push('\n').drop_last() =~= line);
        lemma_line_feeds_none(line);
    }
}

/// The presentation lists the two header lines first, and then for the
/// player of each row, in the order of the rows, the samples of the break
/// count, the build count, the play ticks and the vote count: 2 + 4n lines
/// for n rows.
pub proof fn law_lines_follow_the_rows(rows: Seq<Row>)
    ensures
        lines_of(rows).len() == 2 + 4 * rows.len(),
        lines_of(rows)[0] == help_line(),
        lines_of(rows)[1] == type_line(),
        forall|i: int|
            0 <= i < rows.len() ==> {
                &&& #[trigger] lines_of(rows)[2 + 4 * i] == sample_line(
                    rows[i].0,
                    "break_count"@,
                    rows[i].1.break_count,
                )
                &&& lines_of(rows)[2 + 4 * i + 1] == sample_line(
                    rows[i].0,
                    "build_count"@,
                    rows[i].1.build_count,
                )
                &&& lines_of(rows)[2 + 4 * i + 2] == sample_line(
                    rows[i].0,
                    "play_ticks"@,
                    rows[i].1.play_ticks,
                )
                &&& lines_of(rows)[2 + 4 * i + 3] == sample_line(
                    rows[i].0,
                    "vote_count"@,
                    rows[i].1.vote_count,
                )
            },
    decreases rows.len(),
{
    if rows.len() > 0 {
        let earlier = rows.drop_last();
        law_lines_follow_the_rows(earlier);
        assert forall|i: int| 0 <= i < rows.len() implies {
            &&& #[trigger] lines_of(rows)[2 + 4 * i] == sample_line(
                rows[i].0,
                "break_count"@,
                rows[i].1.break_count,
            )
            &&& lines_of(rows)[2 + 4 * i + 1] == sample_line(
                rows[i].0,
                "build_count"@,
                rows[i].1.build_count,
            )
            &&& lines_of(rows)[2 + 4 * i + 2] == sample_line(
                rows[i].0,
                "play_ticks"@,
                rows[i].1.play_ticks,
            )
            &&& lines_of(rows)[2 + 4 * i + 3] == sample_line(
                rows[i].0,
                "vote_count"@,
                rows[i].1.vote_count,
            )
        } by {
            if i < earlier.len() {
                assert(earlier[i] == rows[i]);
                assert(lines_of(earlier)[2 + 4 * i] == lines_of(rows)[2 + 4 * i]);
            }
        }
    }
}

/// Where no identity holds a line feed, no line of the presentation holds
/// one, and the text has exactly 2 + 4n line feeds for n rows: one at the end
/// of each line.
pub proof fn law_line_count(rows: Seq<Row>)
    requires
        forall|i: int| 0 <= i < rows.len() ==> single_line(#[trigger] rows[i].0),
    ensures
        forall|k: int| 0 <= k < lines_of(rows).len() ==> single_line(#[trigger] lines_of(rows)[k]),
        line_feeds(presentation(rows)) == 2 + 4 * rows.len(),
{
    lemma_lines_single(rows);
    law_lines_follow_the_rows(rows);
    lemma_line_feeds_of_lines(lines_of(rows));
}

/// Where no identity holds a line feed, no line does.
proof fn lemma_lines_single(rows: Seq<Row>)
    requires
        forall|i: int| 0 <= i < rows.len() ==> single_line(#[trigger] rows[i].0),
    ensures
        forall|k: int| 0 <= k < lines_of(rows).len() ==> single_line(#[trigger] lines_of(rows)[k]),
    decreases rows.len(),
{
    lemma_header_lines_single();
    if rows.len() > 0 {
        let earlier = rows.drop_last();
        assert forall|i: int| 0 <= i < earlier.len() implies single_line(
            #[trigger] earlier[i].0,
        ) by {
            assert(earlier[i] == rows[i]);
        }
        lemma_lines_single(earlier);
        lemma_player_lines_single(rows.last());
        assert forall|k: int| 0 <= k < lines_of(rows).len() implies single_line(
            #[trigger] lines_of(rows)[k],
        ) by {
            if k >= lines_of(earlier).len() {
                assert(lines_of(rows)[k] == player_lines(rows.last())[k - lines_of(earlier).len()]);
            }
        }
    }
}

} // verus!
