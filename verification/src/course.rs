//! The document serializer: renders the course metadata and its section list
//! as a nested tagged text document.

use crate::translate::{sections_view, GHint, GSection, Hint, Section};
use vstd::prelude::*;

verus! {

/// A finished workout document: static metadata plus the ordered section
/// list.
pub struct Course {
    pub name: String,
    pub description: Option<String>,
    pub author: String,
    pub sport_type: String,
    pub sections: Vec<Section>,
}

/// The mathematical image of a `Course`.
#[verifier::ext_equal]
pub struct GCourse {
    pub name: Seq<char>,
    pub description: Option<Seq<char>>,
    pub author: Seq<char>,
    pub sport_type: Seq<char>,
    pub sections: Seq<GSection>,
}

impl View for Course {
    type V = GCourse;

    open spec fn view(&self) -> GCourse {
        GCourse {
            name: self.name@,
            description: match self.description {
                Some(d) => Some(d@),
                None => None,
            },
            author: self.author@,
            sport_type: self.sport_type@,
            sections: sections_view(self.sections@),
        }
    }
}

pub open spec fn digit_char(d: int) -> char {
    if d == 0 {
        '0'
    } else if d == 1 {
        '1'
    } else if d == 2 {
        '2'
    } else if d == 3 {
        '3'
    } else if d == 4 {
        '4'
    } else if d == 5 {
        '5'
    } else if d == 6 {
        '6'
    } else if d == 7 {
        '7'
    } else if d == 8 {
        '8'
    } else {
        '9'
    }
}

/// The decimal numeral of `n`, most significant digit first.
pub open spec fn spec_dec(n: nat) -> Seq<char>
    decreases n,
{
    if n < 10 {
        seq![digit_char(n as int)]
    } else {
        spec_dec(n / 10).push(digit_char((n % 10) as int))
    }
}

fn digit_str(d: u64) -> (r: &'static str)
    requires
        d < 10,
    ensures
        r@ =~= seq![digit_char(d as int)],
{
    proof {
        reveal_strlit("0");
        reveal_strlit("1");
        reveal_strlit("2");
        reveal_strlit("3");
        reveal_strlit("4");
        reveal_strlit("5");
        reveal_strlit("6");
        reveal_strlit("7");
        reveal_strlit("8");
        reveal_strlit("9");
    }
    match d {
        0 => "0",
        1 => "1",
        2 => "2",
        3 => "3",
        4 => "4",
        5 => "5",
        6 => "6",
        7 => "7",
        8 => "8",
        _ => "9",
    }
}

/// Renders `n` as its decimal numeral.
pub fn u64_to_string(n: u64) -> (r: String)
    ensures
        r@ == spec_dec(n as nat),
    decreases n,
{
    if n < 10 {
        String::from_str(digit_str(n))
    } else {
        proof {
            assert(n / 10 < n) by (nonlinear_arith)
                requires
                    n >= 10,
            ;
        }
        let mut s = u64_to_string(n / 10);
        s.append(digit_str(n % 10));
        proof {
            assert(s@ =~= spec_dec((n as nat) / 10).push(digit_char(((n as nat) % 10) as int)));
        }
        s
    }
}

/// The power fraction in hundredths, rendered as the shortest decimal: whole
/// when even, one decimal when a multiple of a tenth, else two decimals.
pub open spec fn spec_power_text(c: nat) -> Seq<char> {
    if c % 100 == 0 {
        spec_dec(c / 100)
    } else if c % 10 == 0 {
        spec_dec(c / 100) + "."@ + seq![digit_char(((c / 10) % 10) as int)]
    } else {
        spec_dec(c / 100) + "."@ + seq![
            digit_char(((c / 10) % 10) as int),
            digit_char((c % 10) as int),
        ]
    }
}

/// Renders a power level held in hundredths.
pub fn power_text(p: u64) -> (r: String)
    ensures
        r@ == spec_power_text(p as nat),
{
    let mut s = u64_to_string(p / 100);
    if p % 100 == 0 {
        s
    } else if p % 10 == 0 {
        s.append(".");
        s.append(digit_str((p / 10) % 10));
        proof {
            assert(s@ =~= spec_power_text(p as nat));
        }
        s
    } else {
        s.append(".");
        s.append(digit_str((p / 10) % 10));
        s.append(digit_str(p % 10));
        proof {
            assert(s@ =~= spec_power_text(p as nat));
        }
        s
    }
}

/// One rendered annotation element.
pub open spec fn spec_hint_text(h: GHint) -> Seq<char>
    recommends
        h.offset >= 0,
{
    "\t\t\t<textevent timeoffset=\""@ + spec_dec(h.offset as nat) + "\" message=\""@ + h.text
        + "\"/>\n"@
}

/// The rendered annotation list, in arrival order.
pub open spec fn spec_hints_text(hs: Seq<GHint>) -> Seq<char>
    decreases hs.len(),
{
    if hs.len() == 0 {
        Seq::empty()
    } else {
        spec_hints_text(hs.drop_last()) + spec_hint_text(hs.last())
    }
}

/// One rendered section: self-contained when it has no annotations, a
/// container around its annotation elements otherwise.
pub open spec fn spec_section_text(s: GSection) -> Seq<char> {
    if s.text.len() == 0 {
        "\t\t<SteadyState Duration=\""@ + spec_dec(s.duration as nat) + "\" Power=\""@
            + spec_power_text(s.power as nat) + "\" pace=\"0\"/>\n"@
    } else {
        "\t\t<SteadyState Duration=\""@ + spec_dec(s.duration as nat) + "\" Power=\""@
            + spec_power_text(s.power as nat) + "\" pace=\"0\">\n"@ + spec_hints_text(s.text)
            + "\t\t</SteadyState>\n"@
    }
}

/// The rendered section list, in output order.
pub open spec fn spec_sections_text(ss: Seq<GSection>) -> Seq<char>
    decreases ss.len(),
{
    if ss.len() == 0 {
        Seq::empty()
    } else {
        spec_sections_text(ss.drop_last()) + spec_section_text(ss.last())
    }
}

/// The rendered header: metadata, the tags element, and the workout element.
pub open spec fn spec_header_text(c: GCourse) -> Seq<char> {
    "\t<author>"@ + c.author + "</author>\n"@ + "\t<name>"@ + c.name + "</name>\n"@ + (match c
        .description {
        Some(d) => "\t<description>"@ + d + "</description>\n"@,
        None => "\t<description/>\n"@,
    }) + "\t<sportType>"@ + c.sport_type + "</sportType>\n"@ + "\t<tags/>\n"@ + "\t<workout>\n"@
        + spec_sections_text(c.sections) + "\t</workout>\n"@
}

/// The whole rendered document.
pub open spec fn spec_course_text(c: GCourse) -> Seq<char> {
    "<workout_file>\n"@ + spec_header_text(c) + "</workout_file>\n"@
}

fn hint_text(h: &Hint) -> (r: String)
    ensures
        r@ == spec_hint_text(h@),
{
    let mut s = String::from_str("\t\t\t<textevent timeoffset=\"");
    let num = u64_to_string(h.offset);
    s.append(num.as_str());
    s.append("\" message=\"");
    s.append(h.text.as_str());
    s.append("\"/>\n");
    proof {
        assert(s@ =~= spec_hint_text(h@));
    }
    s
}

/// Renders one section with its annotations.
#[verifier::loop_isolation(false)]
pub fn section_text(sec: &Section) -> (r: String)
    ensures
        r@ == spec_section_text(sec@),
{
    let mut s = String::from_str("\t\t<SteadyState Duration=\"");
    let dur = u64_to_string(sec.duration);
    s.append(dur.as_str());
    s.append("\" Power=\"");
    let pow = power_text(sec.power);
    s.append(pow.as_str());
    if sec.text.len() == 0 {
        s.append("\" pace=\"0\"/>\n");
        proof {
            assert(s@ =~= spec_section_text(sec@));
        }
        s
    } else {
        s.append("\" pace=\"0\">\n");
        let ghost head = s@;
        let mut j: usize = 0;
        proof {
            assert(sec@.text.take(0) =~= Seq::<GHint>::empty());
        }
        while j < sec.text.len()
            invariant
                0 <= j <= sec.text.len(),
                s@ == head + spec_hints_text(sec@.text.take(j as int)),
            decreases sec.text.len() - j,
        {
            let piece = hint_text(&sec.text[j]);
            s.append(piece.as_str());
            proof {
                assert(sec@.text.take(j + 1).drop_last() =~= sec@.text.take(j as int));
                assert(sec@.text.take(j + 1).last() == sec@.text[j as int]);
                assert(sec@.text[j as int] == sec.text@[j as int]@);
            }
            j = j + 1;
        }
        proof {
            assert(sec@.text.take(sec.text@.len() as int) =~= sec@.text);
        }
        s.append("\t\t</SteadyState>\n");
        proof {
            assert(s@ =~= spec_section_text(sec@));
        }
        s
    }
}


impl Course {
    /// Renders the workout element holding every section.
    #[verifier::loop_isolation(false)]
    pub fn write_sections(&self) -> (r: String)
        ensures
            r@ == "\t<workout>\n"@ + spec_sections_text(self@.sections) + "\t</workout>\n"@,
    {
        let mut s = String::from_str("\t<workout>\n");
        let mut j: usize = 0;
        proof {
            assert(self@.sections.take(0) =~= Seq::<GSection>::empty());
        }
        while j < self.sections.len()
            invariant
                0 <= j <= self.sections.len(),
                s@ == "\t<workout>\n"@ + spec_sections_text(self@.sections.take(j as int)),
            decreases self.sections.len() - j,
        {
            let piece = section_text(&self.sections[j]);
            s.append(piece.as_str());
            proof {
                assert(self@.sections.take(j + 1).drop_last() =~= self@.sections.take(j as int));
                assert(self@.sections.take(j + 1).last() == self@.sections[j as int]);
                assert(self@.sections[j as int] == self.sections@[j as int]@);
            }
            j = j + 1;
        }
        proof {
            assert(self@.sections.take(self.sections@.len() as int) =~= self@.sections);
        }
        s.append("\t</workout>\n");
        s
    }

    /// Renders the metadata header followed by the workout element.
    pub fn write_header(&self) -> (r: String)
        ensures
            r@ == spec_header_text(self@),
    {
        let mut s = String::from_str("\t<author>");
        s.append(self.author.as_str());
        s.append("</author>\n");
        s.append("\t<name>");
        s.append(self.name.as_str());
        s.append("</name>\n");
        match &self.description {
            Some(d) => {
                s.append("\t<description>");
                s.append(d.as_str());
                s.append("</description>\n");
            },
            None => {
                s.append("\t<description/>\n");
            },
        }
        s.append("\t<sportType>");
        s.append(self.sport_type.as_str());
        s.append("</sportType>\n");
        s.append("\t<tags/>\n");
        let w = self.write_sections();
        s.append(w.as_str());
        proof {
            assert(s@ =~= spec_header_text(self@));
        }
        s
    }

    /// Renders the whole document.
    pub fn to_text(&self) -> (r: String)
        ensures
            r@ == spec_course_text(self@),
    {
        let mut s = String::from_str("<workout_file>\n");
        let h = self.write_header();
        s.append(h.as_str());
        s.append("</workout_file>\n");
        proof {
            assert(s@ =~= spec_course_text(self@));
        }
        s
    }
}

/// Relies on `String::push` of std: it appends exactly the one character.
#[verifier::external_body]
fn push_char(s: &mut String, c: char)
    ensures
        final(s)@ == old(s)@.push(c),
{
    s.push(c);
}

/// Every tab replaced by four spaces; all other characters kept as they are.
pub open spec fn spec_expand_tabs(s: Seq<char>) -> Seq<char>
    decreases s.len(),
{
    if s.len() == 0 {
        Seq::empty()
    } else {
        spec_expand_tabs(s.drop_last()) + (if s.last() == '\t' {
            "    "@
        } else {
            seq![s.last()]
        })
    }
}

/// Expands every tab of the rendered document into four spaces.
#[verifier::loop_isolation(false)]
pub fn expand_tabs(s: &str) -> (r: String)
    ensures
        r@ == spec_expand_tabs(s@),
{
    let n = s.unicode_len();
    let mut acc = String::new();
    let mut i: usize = 0;
    proof {
        assert(s@.take(0) =~= Seq::<char>::empty());
    }
    while i < n
        invariant
            0 <= i <= n,
            n == s@.len(),
            acc@ == spec_expand_tabs(s@.take(i as int)),
        decreases n - i,
    {
        let c = s.get_char(i);
        if c == '\t' {
            acc.append("    ");
        } else {
            push_char(&mut acc, c);
        }
        proof {
            assert(s@.take(i + 1).drop_last() =~= s@.take(i as int));
            assert(s@.take(i + 1).last() == s@[i as int]);
            assert(acc@ =~= spec_expand_tabs(s@.take(i + 1)));
        }
        i = i + 1;
    }
    proof {
        assert(s@.take(n as int) =~= s@);
    }
    acc
}

} // verus!
