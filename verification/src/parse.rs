//! The line parser: marker discovery followed by section accumulation,
//! with its mathematical model and the laws the model obeys.

use vstd::prelude::*;
use crate::error::Error;
use crate::sections::SectionMap;
use crate::text;
use crate::text::{find_from, starts_with_spec, trim_end_spec, trim_spec};

verus! {

/// The declaration literal whose first appearance fixes the marker.
pub open spec fn header_seq() -> Seq<char> {
    "multitext header"@
}

/// Whether `line` contains the declaration literal.
pub open spec fn line_has_header(line: Seq<char>) -> bool {
    find_from(line, header_seq(), 0) >= 0
}

/// The marker a declaring line fixes: every character strictly before the
/// literal's first occurrence, right-trimmed.
pub open spec fn marker_of_line(line: Seq<char>) -> Seq<char> {
    trim_end_spec(line.take(find_from(line, header_seq(), 0)))
}

/// The index of the first line at or after `i` that contains the
/// declaration literal, or -1 when no such line remains.
pub open spec fn first_header_from(lines: Seq<Seq<char>>, i: int) -> int
    decreases lines.len() - i,
    when 0 <= i
{
    if i >= lines.len() {
        -1
    } else if line_has_header(lines[i]) {
        i
    } else {
        first_header_from(lines, i + 1)
    }
}

/// The index of the first line containing the declaration literal, or -1.
pub open spec fn first_header_line(lines: Seq<Seq<char>>) -> int {
    first_header_from(lines, 0)
}

/// What `first_header_from` reports: discovery stops at the first
/// declaring line; -1 means no line at or after `i` declares.
pub proof fn lemma_first_header_from(lines: Seq<Seq<char>>, i: int)
    requires
        0 <= i,
    ensures
        first_header_from(lines, i) == -1 ==> forall|k: int|
            i <= k < lines.len() ==> !line_has_header(lines[k]),
        first_header_from(lines, i) >= i ==> {
            &&& first_header_from(lines, i) < lines.len()
            &&& line_has_header(lines[first_header_from(lines, i)])
            &&& forall|k: int|
                i <= k < first_header_from(lines, i) ==> !line_has_header(lines[k])
        },
        first_header_from(lines, i) == -1 || first_header_from(lines, i) >= i,
    decreases lines.len() - i,
{
    if i >= lines.len() {
    } else if line_has_header(lines[i]) {
    } else {
        lemma_first_header_from(lines, i + 1);
    }
}

/// Parsing succeeds exactly when some line contains the declaration
/// literal.
pub open spec fn parse_succeeds(lines: Seq<Seq<char>>) -> bool {
    first_header_line(lines) >= 0
}

/// The marker the input fixes: the prefix of its first declaring line.
pub open spec fn spec_marker(lines: Seq<Seq<char>>) -> Seq<char> {
    marker_of_line(lines[first_header_line(lines)])
}

/// The name a marker line opens: the line with the marker's length of
/// characters stripped from the front, then trimmed on both ends.
pub open spec fn section_name(line: Seq<char>, marker: Seq<char>) -> Seq<char> {
    trim_spec(line.skip(marker.len() as int))
}

/// The newline appended after every body line.
pub open spec fn nl() -> Seq<char> {
    seq!['\n']
}

/// Section accumulation from line `i` on, with `name` and `text` the
/// section currently open and `m` the sections already closed: every
/// marker line closes the open section and opens the one it names; every
/// other line joins the open body; the end of input closes the open
/// section.
pub open spec fn accumulate(
    lines: Seq<Seq<char>>,
    i: int,
    marker: Seq<char>,
    name: Seq<char>,
    text: Seq<char>,
    m: Map<Seq<char>, Seq<char>>,
) -> Map<Seq<char>, Seq<char>>
    decreases lines.len() - i,
    when 0 <= i
{
    if i >= lines.len() {
        m.insert(name, text)
    } else if starts_with_spec(lines[i], marker) {
        accumulate(
            lines,
            i + 1,
            marker,
            section_name(lines[i], marker),
            Seq::<char>::empty(),
            m.insert(name, text),
        )
    } else {
        accumulate(lines, i + 1, marker, name, text + lines[i] + nl(), m)
    }
}

/// The mapping parsing yields when it succeeds: accumulation over the
/// lines after the declaring line, starting inside the section named by
/// the declaration literal itself.
pub open spec fn spec_parse(lines: Seq<Seq<char>>) -> Map<Seq<char>, Seq<char>> {
    accumulate(
        lines,
        first_header_line(lines) + 1,
        spec_marker(lines),
        header_seq(),
        Seq::<char>::empty(),
        Map::<Seq<char>, Seq<char>>::empty(),
    )
}

/// The body of the section open at line `i`: every line up to but not
/// including the next marker line (or the end of input), each followed by
/// a newline.
pub open spec fn body_from(lines: Seq<Seq<char>>, i: int, marker: Seq<char>) -> Seq<char>
    decreases lines.len() - i,
    when 0 <= i
{
    if i >= lines.len() {
        Seq::<char>::empty()
    } else if starts_with_spec(lines[i], marker) {
        Seq::<char>::empty()
    } else {
        lines[i] + nl() + body_from(lines, i + 1, marker)
    }
}

/// A name that is neither the open section's nor borne by any marker line
/// from `i` on keeps whatever binding `m` gives it.
proof fn lemma_acc_settled(
    lines: Seq<Seq<char>>,
    i: int,
    marker: Seq<char>,
    name: Seq<char>,
    text: Seq<char>,
    m: Map<Seq<char>, Seq<char>>,
    key: Seq<char>,
)
    requires
        0 <= i,
        key != name,
        forall|j: int|
            i <= j < lines.len() && #[trigger] starts_with_spec(lines[j], marker)
                ==> section_name(lines[j], marker) != key,
    ensures
        accumulate(lines, i, marker, name, text, m).contains_key(key) == m.contains_key(key),
        m.contains_key(key) ==> accumulate(lines, i, marker, name, text, m)[key] == m[key],
    decreases lines.len() - i,
{
    if i >= lines.len() {
    } else if starts_with_spec(lines[i], marker) {
        let name2 = section_name(lines[i], marker);
        assert(name2 != key);
        lemma_acc_settled(lines, i + 1, marker, name2, Seq::<char>::empty(), m.insert(name, text), key);
    } else {
        lemma_acc_settled(lines, i + 1, marker, name, text + lines[i] + nl(), m, key);
    }
}

/// When no marker line from `i` on re-declares the open section's name,
/// that name ends up bound to the text gathered so far followed by the
/// body that runs to the next marker line.
proof fn lemma_acc_current(
    lines: Seq<Seq<char>>,
    i: int,
    marker: Seq<char>,
    name: Seq<char>,
    text: Seq<char>,
    m: Map<Seq<char>, Seq<char>>,
)
    requires
        0 <= i,
        forall|j: int|
            i <= j < lines.len() && #[trigger] starts_with_spec(lines[j], marker)
                ==> section_name(lines[j], marker) != name,
    ensures
        accumulate(lines, i, marker, name, text, m).contains_key(name),
        accumulate(lines, i, marker, name, text, m)[name] == text + body_from(lines, i, marker),
    decreases lines.len() - i,
{
    if i >= lines.len() {
        assert(text + Seq::<char>::empty() =~= text);
    } else if starts_with_spec(lines[i], marker) {
        let name2 = section_name(lines[i], marker);
        assert(name2 != name);
        lemma_acc_settled(
            lines,
            i + 1,
            marker,
            name2,
            Seq::<char>::empty(),
            m.insert(name, text),
            name,
        );
        assert(text + body_from(lines, i, marker) =~= text);
    } else {
        lemma_acc_current(lines, i + 1, marker, name, text + lines[i] + nl(), m);
        assert(text + lines[i] + nl() + body_from(lines, i + 1, marker) =~= text + (lines[i] + nl()
            + body_from(lines, i + 1, marker)));
    }
}

/// The section a marker line opens, when no later marker line bears the
/// same name, ends up bound to the body that follows it.
proof fn lemma_acc_marker_last(
    lines: Seq<Seq<char>>,
    i: int,
    marker: Seq<char>,
    name: Seq<char>,
    text: Seq<char>,
    m: Map<Seq<char>, Seq<char>>,
    j: int,
)
    requires
        0 <= i <= j < lines.len(),
        starts_with_spec(lines[j], marker),
        forall|l: int|
            j < l < lines.len() && #[trigger] starts_with_spec(lines[l], marker)
                ==> section_name(lines[l], marker) != section_name(lines[j], marker),
    ensures
        accumulate(lines, i, marker, name, text, m).contains_key(section_name(lines[j], marker)),
        accumulate(lines, i, marker, name, text, m)[section_name(lines[j], marker)] == body_from(
            lines,
            j + 1,
            marker,
        ),
    decreases j - i,
{
    if i == j {
        let name2 = section_name(lines[j], marker);
        lemma_acc_current(lines, i + 1, marker, name2, Seq::<char>::empty(), m.insert(name, text));
        assert(Seq::<char>::empty() + body_from(lines, j + 1, marker) =~= body_from(
            lines,
            j + 1,
            marker,
        ));
    } else {
        if starts_with_spec(lines[i], marker) {
            lemma_acc_marker_last(
                lines,
                i + 1,
                marker,
                section_name(lines[i], marker),
                Seq::<char>::empty(),
                m.insert(name, text),
                j,
            );
        } else {
            lemma_acc_marker_last(lines, i + 1, marker, name, text + lines[i] + nl(), m, j);
        }
    }
}

/// Re-parsing: the outcome of a parse depends on the line sequence alone,
/// so consuming the same sequence twice independently yields an identical
/// mapping.
pub proof fn lemma_reparse_identical(lines1: Seq<Seq<char>>, lines2: Seq<Seq<char>>)
    requires
        lines1 == lines2,
    ensures
        parse_succeeds(lines1) == parse_succeeds(lines2),
        parse_succeeds(lines1) ==> spec_parse(lines1) == spec_parse(lines2),
{
}

/// The declaration section: when no later marker line re-declares the
/// name spelled by the declaration literal, the mapping binds that name
/// to the lines strictly between the declaring line and the next marker
/// line (or the end of input), each with a newline appended.
pub proof fn lemma_header_section(lines: Seq<Seq<char>>)
    requires
        parse_succeeds(lines),
        forall|l: int|
            first_header_line(lines) < l < lines.len() && #[trigger] starts_with_spec(
                lines[l],
                spec_marker(lines),
            ) ==> section_name(lines[l], spec_marker(lines)) != header_seq(),
    ensures
        spec_parse(lines).contains_key(header_seq()),
        spec_parse(lines)[header_seq()] == body_from(
            lines,
            first_header_line(lines) + 1,
            spec_marker(lines),
        ),
{
    lemma_acc_current(
        lines,
        first_header_line(lines) + 1,
        spec_marker(lines),
        header_seq(),
        Seq::<char>::empty(),
        Map::<Seq<char>, Seq<char>>::empty(),
    );
    assert(Seq::<char>::empty() + body_from(lines, first_header_line(lines) + 1, spec_marker(lines))
        =~= body_from(lines, first_header_line(lines) + 1, spec_marker(lines)));
}

/// The overwrite rule: when line `j` is the last marker line bearing its
/// name, the mapping binds that name to the body following line `j` — the
/// text of every earlier section of the same name is discarded.
pub proof fn lemma_overwrite(lines: Seq<Seq<char>>, j: int)
    requires
        parse_succeeds(lines),
        first_header_line(lines) < j < lines.len(),
        starts_with_spec(lines[j], spec_marker(lines)),
        forall|l: int|
            j < l < lines.len() && #[trigger] starts_with_spec(lines[l], spec_marker(lines))
                ==> section_name(lines[l], spec_marker(lines)) != section_name(
                lines[j],
                spec_marker(lines),
            ),
    ensures
        spec_parse(lines).contains_key(section_name(lines[j], spec_marker(lines))),
        spec_parse(lines)[section_name(lines[j], spec_marker(lines))] == body_from(
            lines,
            j + 1,
            spec_marker(lines),
        ),
{
    lemma_acc_marker_last(
        lines,
        first_header_line(lines) + 1,
        spec_marker(lines),
        header_seq(),
        Seq::<char>::empty(),
        Map::<Seq<char>, Seq<char>>::empty(),
        j,
    );
}

/// Finds the first declaring line: its index and the position of the
/// literal's first occurrence in it.
fn find_header_line(lines: &Vec<String>) -> (r: Option<(usize, usize)>)
    ensures
        match r {
            Some(ki) => {
                &&& (ki.0 as int) < lines.deep_view().len()
                &&& first_header_line(lines.deep_view()) == ki.0 as int
                &&& find_from(lines.deep_view()[ki.0 as int], header_seq(), 0) == ki.1 as int
                &&& ki.1 + header_seq().len() <= lines.deep_view()[ki.0 as int].len()
            },
            None => first_header_line(lines.deep_view()) == -1,
        },
{
    let ghost lv = lines.deep_view();
    let n = lines.len();
    let mut k: usize = 0;
    while k < n
        invariant
            0 <= k <= n,
            n == lv.len(),
            lv == lines.deep_view(),
            first_header_from(lv, 0) == first_header_from(lv, k as int),
        decreases n - k,
    {
        let line = &lines[k];
        proof {
            assert(lv[k as int] == line@);
        }
        match text::str_find(line.as_str(), "multitext header") {
            Some(idx) => {
                proof {
                    text::lemma_find_from(lv[k as int], header_seq(), 0);
                    assert(line_has_header(lv[k as int]));
                    assert(first_header_from(lv, k as int) == k as int);
                }
                return Some((k, idx));
            },
            None => {
                proof {
                    assert(!line_has_header(lv[k as int]));
                    assert(first_header_from(lv, k as int) == first_header_from(lv, k + 1));
                }
                k = k + 1;
            },
        }
    }
    proof {
        assert(first_header_from(lv, n as int) == -1);
    }
    None
}

/// Parses a sequence of lines, already stripped of their terminators.
///
/// On success the result maps each section name to its body, later
/// sections of a name overwriting earlier ones, as [`spec_parse`] states.
/// It fails exactly when no line contains the declaration literal, with a
/// line number equal to the number of lines consumed and the message
/// "missing multitext header".
pub fn parse_lines(lines: &Vec<String>) -> (r: Result<SectionMap, Error>)
    ensures
        r is Ok <==> parse_succeeds(lines.deep_view()),
        r matches Ok(m) ==> m.wf() && m@ == spec_parse(lines.deep_view()),
        r matches Err(e) ==> {
            &&& e.line_number matches Some(ln) && ln as nat == lines.deep_view().len()
            &&& e.filename is None
            &&& e.error_message@ == "missing multitext header"@
        },
{
    let ghost lv = lines.deep_view();
    let n = lines.len();
    match find_header_line(lines) {
        None => Err(
            Error {
                line_number: Some(n),
                filename: None,
                error_message: String::from_str("missing multitext header"),
            },
        ),
        Some((k, idx)) => {
            let line = &lines[k];
            proof {
                assert(lv[k as int] == line@);
            }
            let before = line.as_str().substring_char(0, idx);
            let prefix = text::trim_end(before);
            let ghost mk = prefix@;
            proof {
                assert(mk == marker_of_line(lv[k as int]));
                assert(mk == spec_marker(lv));
            }
            let ghost target = accumulate(
                lv,
                k as int + 1,
                mk,
                header_seq(),
                Seq::<char>::empty(),
                Map::<Seq<char>, Seq<char>>::empty(),
            );
            let mut smap = SectionMap::new();
            let mut name = String::from_str("multitext header");
            let mut body = String::new();
            proof {
                assert(name@ == header_seq());
                assert(target == spec_parse(lv));
            }
            let mut i: usize = k + 1;
            while i < n
                invariant
                    k < i <= n,
                    n == lv.len(),
                    lv == lines.deep_view(),
                    mk == prefix@,
                    smap.wf(),
                    accumulate(lv, i as int, mk, name@, body@, smap@) == target,
                decreases n - i,
            {
                let line = &lines[i];
                proof {
                    assert(lv[i as int] == line@);
                }
                if text::str_starts_with(line.as_str(), prefix) {
                    let plen = prefix.unicode_len();
                    let rest = line.as_str().substring_char(plen, line.as_str().unicode_len());
                    let new_name = String::from_str(text::trim(rest));
                    proof {
                        assert(rest@ == lv[i as int].skip(mk.len() as int));
                        assert(new_name@ == section_name(lv[i as int], mk));
                    }
                    smap.insert(name, body);
                    name = new_name;
                    body = String::new();
                } else {
                    body.append(line.as_str());
                    body.append("\n");
                    proof {
                        reveal_strlit("\n");
                        assert("\n"@ =~= nl());
                    }
                }
                i = i + 1;
            }
            smap.insert(name, body);
            Ok(smap)
        },
    }
}

} // verus!
