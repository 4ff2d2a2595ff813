use vstd::prelude::*;
use crate::text::{
    chars_of, collapse_chars, collapse_white_space, commas_to_lines, commas_to_lines_chars,
    string_of,
};

verus! {

/// One applicant's answers. Every text field is empty where its column is absent or blank.
pub struct Record {
    pub timestamp: String,
    pub submit_email: String,
    pub first_name: String,
    pub last_name: String,
    pub candidate_id: String,
    pub candidate_email: String,
    pub phone_no: String,
    pub student_status: String,
    pub gender: String,
    pub degree: String,
    pub advisor: String,
    pub date_program_entered: String,
    pub gpa: String,
    pub credit_hours: String,
    pub currently_working: String,
    pub supervisor: String,
    pub department: String,
    pub position: String,
    pub qualified_for: String,
    pub other: String,
    pub resume: String,
    /// Position of the record among those of its batch that decoded, from 1; 0 for a spacer.
    pub index: usize,
    /// Score of the record's card against the last query.
    pub score: i64,
}

/// `i` is the first column headed `name`.
pub open spec fn is_first_column(h: Seq<Seq<char>>, name: Seq<char>, i: int) -> bool {
    &&& 0 <= i < h.len()
    &&& h[i] == name
    &&& forall|j: int| 0 <= j < i ==> h[j] != name
}

/// `i` is the last column headed `name`.
pub open spec fn is_last_column(h: Seq<Seq<char>>, name: Seq<char>, i: int) -> bool {
    &&& 0 <= i < h.len()
    &&& h[i] == name
    &&& forall|j: int| i < j < h.len() ==> h[j] != name
}

pub open spec fn first_column(h: Seq<Seq<char>>, name: Seq<char>) -> Option<int> {
    if exists|i: int| is_first_column(h, name, i) {
        Some(choose|i: int| is_first_column(h, name, i))
    } else {
        None
    }
}

pub open spec fn last_column(h: Seq<Seq<char>>, name: Seq<char>) -> Option<int> {
    if exists|i: int| is_last_column(h, name, i) {
        Some(choose|i: int| is_last_column(h, name, i))
    } else {
        None
    }
}

/// The cell of `row` in column `col`; empty where there is no such column or cell.
pub open spec fn cell(row: Seq<Seq<char>>, col: Option<int>) -> Seq<char> {
    match col {
        Some(i) => if 0 <= i < row.len() { row[i] } else { Seq::empty() },
        None => Seq::empty(),
    }
}

/// The stored form of the qualified-courses answer: white space collapsed, one course per line.
pub open spec fn courses_text(raw: Seq<char>) -> Seq<char> {
    commas_to_lines(collapse_white_space(raw))
}

/// Where each field's column stands in a header record.
pub struct Columns {
    pub timestamp: Option<usize>,
    pub submit_email: Option<usize>,
    pub first_name: Option<usize>,
    pub last_name: Option<usize>,
    pub candidate_id: Option<usize>,
    pub candidate_email: Option<usize>,
    pub phone_no: Option<usize>,
    pub student_status: Option<usize>,
    pub gender: Option<usize>,
    pub degree: Option<usize>,
    pub advisor: Option<usize>,
    pub date_program_entered: Option<usize>,
    pub gpa: Option<usize>,
    pub credit_hours: Option<usize>,
    pub currently_working: Option<usize>,
    pub supervisor: Option<usize>,
    pub department: Option<usize>,
    pub position: Option<usize>,
    pub qualified_for: Option<usize>,
    pub other: Option<usize>,
    pub resume: Option<usize>,
}

pub open spec fn col_view(c: Option<usize>) -> Option<int> {
    match c {
        Some(i) => Some(i as int),
        None => None,
    }
}

impl Columns {
    /// The columns of each field in the header `h`.
    pub open spec fn located_in(&self, h: Seq<Seq<char>>) -> bool {
        &&& col_view(self.timestamp) == first_column(h, "Timestamp"@)
        &&& col_view(self.submit_email) == first_column(h, "Email Address"@)
        &&& col_view(self.first_name) == first_column(h, "First Name"@)
        &&& col_view(self.last_name) == first_column(h, "Last Name"@)
        &&& col_view(self.candidate_id) == first_column(h, "UNC Charlotte ID (800#) "@)
        &&& col_view(self.candidate_email) == last_column(h, "Email Address"@)
        &&& col_view(self.phone_no) == first_column(h, "Phone Number"@)
        &&& col_view(self.student_status) == first_column(h, "Student Status"@)
        &&& col_view(self.gender) == first_column(h, "Gender"@)
        &&& col_view(self.degree) == first_column(h, "Degree Program"@)
        &&& col_view(self.advisor) == first_column(h, "Current Advisor"@)
        &&& col_view(self.date_program_entered) == first_column(h, "Date Program Entered"@)
        &&& col_view(self.gpa) == first_column(h, "GPA"@)
        &&& col_view(self.credit_hours) == first_column(h, "Credit Hours Completed"@)
        &&& col_view(self.currently_working) == first_column(h, "Currently Working on Campus?"@)
        &&& col_view(self.supervisor) == first_column(h, "Supervisor"@)
        &&& col_view(self.department) == first_column(h, "Department"@)
        &&& col_view(self.position) == first_column(h, "Position"@)
        &&& col_view(self.qualified_for) == first_column(h, "Courses Qualified to Grade"@)
        &&& col_view(self.other) == first_column(h, "Other skills or information you would like to provide (e.g.  Dean's List, Chancellor's List, Prior TA experience, etc.)"@)
        &&& col_view(self.resume) == first_column(h, "Upload CV or resume (Optional)"@)
    }

    pub fn locate(headers: &Vec<String>) -> (r: Columns)
        ensures
            r.located_in(headers.deep_view()),
    {
        Columns {
            timestamp: find_first_column(headers, "Timestamp"),
            submit_email: find_first_column(headers, "Email Address"),
            first_name: find_first_column(headers, "First Name"),
            last_name: find_first_column(headers, "Last Name"),
            candidate_id: find_first_column(headers, "UNC Charlotte ID (800#) "),
            candidate_email: find_last_column(headers, "Email Address"),
            phone_no: find_first_column(headers, "Phone Number"),
            student_status: find_first_column(headers, "Student Status"),
            gender: find_first_column(headers, "Gender"),
            degree: find_first_column(headers, "Degree Program"),
            advisor: find_first_column(headers, "Current Advisor"),
            date_program_entered: find_first_column(headers, "Date Program Entered"),
            gpa: find_first_column(headers, "GPA"),
            credit_hours: find_first_column(headers, "Credit Hours Completed"),
            currently_working: find_first_column(headers, "Currently Working on Campus?"),
            supervisor: find_first_column(headers, "Supervisor"),
            department: find_first_column(headers, "Department"),
            position: find_first_column(headers, "Position"),
            qualified_for: find_first_column(headers, "Courses Qualified to Grade"),
            other: find_first_column(headers, "Other skills or information you would like to provide (e.g.  Dean's List, Chancellor's List, Prior TA experience, etc.)"),
            resume: find_first_column(headers, "Upload CV or resume (Optional)"),
        }
    }
}

pub fn find_first_column(headers: &Vec<String>, name: &str) -> (r: Option<usize>)
    ensures
        col_view(r) == first_column(headers.deep_view(), name@),
{
    let target = String::from_str(name);
    let ghost h = headers.deep_view();
    let mut i: usize = 0;
    while i < headers.len()
        invariant
            i <= headers@.len(),
            h == headers.deep_view(),
            target@ == name@,
            forall|j: int| 0 <= j < i ==> h[j] != name@,
        decreases headers.len() - i,
    {
        if headers[i] == target {
            assert(is_first_column(h, name@, i as int));
            assert(forall|k: int| is_first_column(h, name@, k) ==> k == i);
            return Some(i);
        }
        i = i + 1;
    }
    None
}

pub fn find_last_column(headers: &Vec<String>, name: &str) -> (r: Option<usize>)
    ensures
        col_view(r) == last_column(headers.deep_view(), name@),
{
    let target = String::from_str(name);
    let ghost h = headers.deep_view();
    let mut i: usize = headers.len();
    while i > 0
        invariant
            i <= headers@.len(),
            h == headers.deep_view(),
            target@ == name@,
            forall|j: int| i <= j < h.len() ==> h[j] != name@,
        decreases i,
    {
        if headers[i - 1] == target {
            assert(is_last_column(h, name@, i - 1));
            assert(forall|k: int| is_last_column(h, name@, k) ==> k == i - 1);
            return Some(i - 1);
        }
        i = i - 1;
    }
    None
}

pub fn cell_of(row: &Vec<String>, col: Option<usize>) -> (r: String)
    ensures
        r@ == cell(row.deep_view(), col_view(col)),
{
    match col {
        Some(i) => if i < row.len() {
            row[i].clone()
        } else {
            String::new()
        },
        None => String::new(),
    }
}

/// The stored form of a qualified-courses answer.
pub fn courses_of(raw: &str) -> (r: String)
    ensures
        r@ == courses_text(raw@),
{
    let c = collapse_chars(&chars_of(raw));
    string_of(commas_to_lines_chars(&c).as_slice())
}

impl Record {
    /// `self` is the record read from `row` under the header `h`, at position `index`.
    pub open spec fn read_from(&self, h: Seq<Seq<char>>, row: Seq<Seq<char>>, index: nat) -> bool {
        &&& self.timestamp@ == cell(row, first_column(h, "Timestamp"@))
        &&& self.submit_email@ == cell(row, first_column(h, "Email Address"@))
        &&& self.first_name@ == cell(row, first_column(h, "First Name"@))
        &&& self.last_name@ == cell(row, first_column(h, "Last Name"@))
        &&& self.candidate_id@ == cell(row, first_column(h, "UNC Charlotte ID (800#) "@))
        &&& self.candidate_email@ == cell(row, last_column(h, "Email Address"@))
        &&& self.phone_no@ == cell(row, first_column(h, "Phone Number"@))
        &&& self.student_status@ == cell(row, first_column(h, "Student Status"@))
        &&& self.gender@ == cell(row, first_column(h, "Gender"@))
        &&& self.degree@ == cell(row, first_column(h, "Degree Program"@))
        &&& self.advisor@ == cell(row, first_column(h, "Current Advisor"@))
        &&& self.date_program_entered@ == cell(row, first_column(h, "Date Program Entered"@))
        &&& self.gpa@ == cell(row, first_column(h, "GPA"@))
        &&& self.credit_hours@ == cell(row, first_column(h, "Credit Hours Completed"@))
        &&& self.currently_working@ == cell(row, first_column(h, "Currently Working on Campus?"@))
        &&& self.supervisor@ == cell(row, first_column(h, "Supervisor"@))
        &&& self.department@ == cell(row, first_column(h, "Department"@))
        &&& self.position@ == cell(row, first_column(h, "Position"@))
        &&& self.qualified_for@ == courses_text(cell(row, first_column(h, "Courses Qualified to Grade"@)))
        &&& self.other@ == cell(row, first_column(h, "Other skills or information you would like to provide (e.g.  Dean's List, Chancellor's List, Prior TA experience, etc.)"@))
        &&& self.resume@ == cell(row, first_column(h, "Upload CV or resume (Optional)"@))
        &&& self.index == index
        &&& self.score == 0
    }

    /// Every text field empty.
    pub open spec fn is_blank(&self) -> bool {
        &&& self.timestamp@.len() == 0
        &&& self.submit_email@.len() == 0
        &&& self.first_name@.len() == 0
        &&& self.last_name@.len() == 0
        &&& self.candidate_id@.len() == 0
        &&& self.candidate_email@.len() == 0
        &&& self.phone_no@.len() == 0
        &&& self.student_status@.len() == 0
        &&& self.gender@.len() == 0
        &&& self.degree@.len() == 0
        &&& self.advisor@.len() == 0
        &&& self.date_program_entered@.len() == 0
        &&& self.gpa@.len() == 0
        &&& self.credit_hours@.len() == 0
        &&& self.currently_working@.len() == 0
        &&& self.supervisor@.len() == 0
        &&& self.department@.len() == 0
        &&& self.position@.len() == 0
        &&& self.qualified_for@.len() == 0
        &&& self.other@.len() == 0
        &&& self.resume@.len() == 0
    }

    /// The record read from `row` under the header `headers`, at position `index`.
    pub fn from_row(headers: &Vec<String>, row: &Vec<String>, index: usize) -> (r: Record)
        ensures
            r.read_from(headers.deep_view(), row.deep_view(), index as nat),
    {
        let cols = Columns::locate(headers);
        Record::from_located(&cols, Ghost(headers.deep_view()), row, index)
    }

    pub(crate) fn from_located(
        cols: &Columns,
        h: Ghost<Seq<Seq<char>>>,
        row: &Vec<String>,
        index: usize,
    ) -> (r: Record)
        requires
            cols.located_in(h@),
        ensures
            r.read_from(h@, row.deep_view(), index as nat),
    {
        Record {
            timestamp: cell_of(row, cols.timestamp),
            submit_email: cell_of(row, cols.submit_email),
            first_name: cell_of(row, cols.first_name),
            last_name: cell_of(row, cols.last_name),
            candidate_id: cell_of(row, cols.candidate_id),
            candidate_email: cell_of(row, cols.candidate_email),
            phone_no: cell_of(row, cols.phone_no),
            student_status: cell_of(row, cols.student_status),
            gender: cell_of(row, cols.gender),
            degree: cell_of(row, cols.degree),
            advisor: cell_of(row, cols.advisor),
            date_program_entered: cell_of(row, cols.date_program_entered),
            gpa: cell_of(row, cols.gpa),
            credit_hours: cell_of(row, cols.credit_hours),
            currently_working: cell_of(row, cols.currently_working),
            supervisor: cell_of(row, cols.supervisor),
            department: cell_of(row, cols.department),
            position: cell_of(row, cols.position),
            qualified_for: courses_of(cell_of(row, cols.qualified_for).as_str()),
            other: cell_of(row, cols.other),
            resume: cell_of(row, cols.resume),
            index,
            score: 0,
        }
    }

    /// The spacer record: every field empty, position 0.
    pub fn spacer() -> (r: Record)
        ensures
            r.is_blank(),
            r.index == 0,
            r.score == 0,
    {
        Record {
            timestamp: String::new(),
            submit_email: String::new(),
            first_name: String::new(),
            last_name: String::new(),
            candidate_id: String::new(),
            candidate_email: String::new(),
            phone_no: String::new(),
            student_status: String::new(),
            gender: String::new(),
            degree: String::new(),
            advisor: String::new(),
            date_program_entered: String::new(),
            gpa: String::new(),
            credit_hours: String::new(),
            currently_working: String::new(),
            supervisor: String::new(),
            department: String::new(),
            position: String::new(),
            qualified_for: String::new(),
            other: String::new(),
            resume: String::new(),
            index: 0,
            score: 0,
        }
    }
}

} // verus!
