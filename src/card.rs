use vstd::prelude::*;
use crate::record::Record;
use crate::text::{chars_of, decimal, decimal_chars, string_of, trim_chars, trimmed};

verus! {

/// A labelled line for a non-empty value; nothing for an empty one.
pub open spec fn field_line(label: Seq<char>, v: Seq<char>) -> Seq<char> {
    if v.len() == 0 {
        Seq::empty()
    } else {
        label + v + "\n"@
    }
}

/// Splitting at line breaks, one character at a time: the finished lines and the current one.
pub open spec fn lines_state(s: Seq<char>) -> (Seq<Seq<char>>, Seq<char>)
    decreases s.len(),
{
    if s.len() == 0 {
        (Seq::empty(), Seq::empty())
    } else {
        let p = lines_state(s.drop_last());
        if s.last() == '\n' {
            (p.0.push(p.1), Seq::empty())
        } else {
            (p.0, p.1.push(s.last()))
        }
    }
}

/// The pieces of `s` between line breaks; a text without a break is one line.
pub open spec fn lines_of(s: Seq<char>) -> Seq<Seq<char>> {
    lines_state(s).0.push(lines_state(s).1)
}

/// The bulleted sub-line for one qualified course.
pub open spec fn course_line(c: Seq<char>) -> Seq<char> {
    "                 • "@ + trimmed(c) + "\n"@
}

pub open spec fn course_lines(rows: Seq<Seq<char>>) -> Seq<char>
    decreases rows.len(),
{
    if rows.len() == 0 {
        Seq::empty()
    } else {
        course_lines(rows.drop_last()) + course_line(rows.last())
    }
}

/// The "Qualified For" block: a heading and one sub-line per stored line.
pub open spec fn qualified_block(q: Seq<char>) -> Seq<char> {
    if q.len() == 0 {
        Seq::empty()
    } else {
        "• Qualified For:\n"@ + course_lines(lines_of(q))
    }
}

/// The "Other" line, with the answer trimmed.
pub open spec fn other_block(o: Seq<char>) -> Seq<char> {
    if o.len() == 0 {
        Seq::empty()
    } else {
        "• Other:          "@ + trimmed(o) + "\n"@
    }
}

/// The header line of a card: the record's position and a full stop.
pub open spec fn header_line(index: nat) -> Seq<char> {
    decimal(index) + ".\n"@
}

/// The card of a record: header line, then one line per non-empty field in a fixed order.
pub open spec fn card_text(r: Record) -> Seq<char> {
    header_line(r.index as nat)
        + field_line("• First Name:     "@, r.first_name@)
        + field_line("• Last Name:      "@, r.last_name@)
        + field_line("• Student ID:     "@, r.candidate_id@)
        + field_line("• Email:          "@, r.candidate_email@)
        + field_line("• Phone Number:   "@, r.phone_no@)
        + field_line("• Student Status: "@, r.student_status@)
        + field_line("• Degree Program: "@, r.degree@)
        + field_line("• Program Entry:  "@, r.date_program_entered@)
        + field_line("• GPA:            "@, r.gpa@)
        + field_line("• Credit Hours:   "@, r.credit_hours@)
        + field_line("• Working?:       "@, r.currently_working@)
        + qualified_block(r.qualified_for@)
        + other_block(r.other@)
}

/// A record whose text fields are all empty renders to its header line alone.
pub proof fn lemma_blank_record_card(r: Record)
    requires
        r.is_blank(),
    ensures
        card_text(r) == header_line(r.index as nat),
{
    assert(card_text(r) =~= header_line(r.index as nat));
}

fn push_field(out: &mut String, label: &str, v: &String)
    ensures
        final(out)@ == old(out)@ + field_line(label@, v@),
{
    if !v.as_str().is_empty() {
        out.append(label);
        out.append(v.as_str());
        out.append("\n");
        assert(final(out)@ =~= old(out)@ + field_line(label@, v@));
    } else {
        assert(old(out)@ + field_line(label@, v@) =~= old(out)@);
    }
}

fn push_course(out: &mut String, c: &Vec<char>)
    ensures
        final(out)@ == old(out)@ + course_line(c@),
{
    out.append("                 • ");
    out.append(string_of(trim_chars(c).as_slice()).as_str());
    out.append("\n");
    assert(final(out)@ =~= old(out)@ + course_line(c@));
}

/// The "Qualified For" block of a stored courses answer.
pub fn render_qualified(q: &String) -> (r: String)
    ensures
        r@ == qualified_block(q@),
{
    if q.as_str().is_empty() {
        return String::new();
    }
    let s = chars_of(q.as_str());
    let mut out = String::from_str("• Qualified For:\n");
    let ghost head = out@;
    let mut cur: Vec<char> = Vec::new();
    let mut i: usize = 0;
    while i < s.len()
        invariant
            i <= s@.len(),
            out@ == head + course_lines(lines_state(s@.take(i as int)).0),
            cur@ == lines_state(s@.take(i as int)).1,
        decreases s.len() - i,
    {
        assert(s@.take(i + 1).drop_last() =~= s@.take(i as int));
        let ghost p = lines_state(s@.take(i as int));
        if s[i] == '\n' {
            push_course(&mut out, &cur);
            assert(p.0.push(p.1).drop_last() =~= p.0);
            assert(out@ =~= head + course_lines(p.0.push(p.1)));
            cur = Vec::new();
        } else {
            cur.push(s[i]);
        }
        i = i + 1;
    }
    assert(s@.take(s.len() as int) =~= s@);
    let ghost p = lines_state(s@);
    push_course(&mut out, &cur);
    assert(p.0.push(p.1).drop_last() =~= p.0);
    assert(out@ =~= head + course_lines(lines_of(q@)));
    out
}

/// The "Other" line of an answer.
pub fn render_other(o: &String) -> (r: String)
    ensures
        r@ == other_block(o@),
{
    if o.as_str().is_empty() {
        return String::new();
    }
    let mut out = String::from_str("• Other:          ");
    out.append(string_of(trim_chars(&chars_of(o.as_str())).as_slice()).as_str());
    out.append("\n");
    assert(out@ =~= other_block(o@));
    out
}

/// The card of a record.
pub fn render(r: &Record) -> (card: String)
    ensures
        card@ == card_text(*r),
{
    let mut out = string_of(decimal_chars(r.index).as_slice());
    out.append(".\n");
    push_field(&mut out, "• First Name:     ", &r.first_name);
    push_field(&mut out, "• Last Name:      ", &r.last_name);
    push_field(&mut out, "• Student ID:     ", &r.candidate_id);
    push_field(&mut out, "• Email:          ", &r.candidate_email);
    push_field(&mut out, "• Phone Number:   ", &r.phone_no);
    push_field(&mut out, "• Student Status: ", &r.student_status);
    push_field(&mut out, "• Degree Program: ", &r.degree);
    push_field(&mut out, "• Program Entry:  ", &r.date_program_entered);
    push_field(&mut out, "• GPA:            ", &r.gpa);
    push_field(&mut out, "• Credit Hours:   ", &r.credit_hours);
    push_field(&mut out, "• Working?:       ", &r.currently_working);
    let q = render_qualified(&r.qualified_for);
    out.append(q.as_str());
    let o = render_other(&r.other);
    out.append(o.as_str());
    assert(out@ =~= card_text(*r));
    out
}

} // verus!
