//! Sheets as the library sees them: a grid of typed cells, and the words a
//! sheet uses for exam types and for absences.

use crate::records::ExamType;
use crate::text::same_text;
use vstd::prelude::*;

verus! {

/// One cell of a sheet.
#[derive(Debug)]
pub enum Cell {
    /// Nothing was entered.
    Blank,
    /// A text.
    Text(String),
    /// A number: its whole part, and whether that is all of it (`exact`)
    /// or a fractional part was cut off.
    Number { whole: i64, exact: bool },
    /// A date, as the count of days since 30 December 1899.
    Serial(i64),
    /// Anything else.
    Other,
}

/// A cell as plain values.
pub enum CellView {
    Blank,
    Text(Seq<char>),
    Number { whole: int, exact: bool },
    Serial(int),
    Other,
}

impl View for Cell {
    type V = CellView;

    open spec fn view(&self) -> CellView {
        match self {
            Cell::Blank => CellView::Blank,
            Cell::Text(text) => CellView::Text(text@),
            Cell::Number { whole, exact } => CellView::Number {
                whole: *whole as int,
                exact: *exact,
            },
            Cell::Serial(days) => CellView::Serial(*days as int),
            Cell::Other => CellView::Other,
        }
    }
}

impl Clone for Cell {
    fn clone(&self) -> (r: Self)
        ensures
            r@ == self@,
    {
        match self {
            Cell::Blank => Cell::Blank,
            Cell::Text(text) => Cell::Text(text.clone()),
            Cell::Number { whole, exact } => Cell::Number { whole: *whole, exact: *exact },
            Cell::Serial(days) => Cell::Serial(*days),
            Cell::Other => Cell::Other,
        }
    }
}

/// The views of the cells of one row, in order.
pub open spec fn row_view(cells: Seq<Cell>) -> Seq<CellView> {
    Seq::new(cells.len(), |i: int| cells[i]@)
}

/// The views of the rows of a grid, in order.
pub open spec fn grid_view(rows: Seq<Vec<Cell>>) -> Seq<Seq<CellView>> {
    Seq::new(rows.len(), |i: int| row_view(rows[i]@))
}

/// The cell at `column`, where a row that ends before it counts as blank
/// there.
pub open spec fn cell_at(row: Seq<CellView>, column: int) -> CellView {
    if 0 <= column < row.len() {
        row[column]
    } else {
        CellView::Blank
    }
}

/// The text of a cell; empty for a cell that holds no text.
pub open spec fn text_in(cell: CellView) -> Seq<char> {
    match cell {
        CellView::Text(text) => text,
        _ => Seq::empty(),
    }
}

/// How an absence is marked.
#[derive(Clone, Copy, Debug, PartialEq, Eq, Structural)]
pub enum Mark {
    /// Absent without leave.
    Absent,
    /// Absent with leave.
    Excused,
}

/// The words a sheet uses.
#[derive(Debug)]
pub struct Vocabulary {
    /// Names the exam type [`ExamType::Official`].
    pub official: String,
    /// Names the exam type [`ExamType::School`].
    pub school: String,
    /// Marks an absence without leave.
    pub absent: String,
    /// Marks an absence with leave.
    pub excused: String,
}

/// The words of a sheet as plain values.
pub struct VocabularyView {
    pub official: Seq<char>,
    pub school: Seq<char>,
    pub absent: Seq<char>,
    pub excused: Seq<char>,
}

impl View for Vocabulary {
    type V = VocabularyView;

    open spec fn view(&self) -> VocabularyView {
        VocabularyView {
            official: self.official@,
            school: self.school@,
            absent: self.absent@,
            excused: self.excused@,
        }
    }
}

/// The words in common use.
pub open spec fn standard_vocabulary() -> VocabularyView {
    VocabularyView {
        official: ExamType::Official.label(),
        school: ExamType::School.label(),
        absent: "缺考"@,
        excused: "請假"@,
    }
}

/// The exam type that `label` names.
pub open spec fn exam_type_of(vocabulary: VocabularyView, label: Seq<char>) -> Option<ExamType> {
    if label == vocabulary.official {
        Some(ExamType::Official)
    } else if label == vocabulary.school {
        Some(ExamType::School)
    } else {
        None
    }
}

/// The absence that `text` marks.
pub open spec fn mark_of(vocabulary: VocabularyView, text: Seq<char>) -> Option<Mark> {
    if text == vocabulary.excused {
        Some(Mark::Excused)
    } else if text == vocabulary.absent {
        Some(Mark::Absent)
    } else {
        None
    }
}

/// The word for an outcome: the mark of the absence, or `present` for a
/// student who sat the exam.
pub open spec fn status_word(
    vocabulary: VocabularyView,
    is_absent: bool,
    is_excused: bool,
    present: Seq<char>,
) -> Seq<char> {
    if is_absent && is_excused {
        vocabulary.excused
    } else if is_absent {
        vocabulary.absent
    } else {
        present
    }
}

impl Vocabulary {
    /// The words in common use.
    pub fn standard() -> (r: Vocabulary)
        ensures
            r@ == standard_vocabulary(),
    {
        Vocabulary {
            official: ExamType::Official.to_string(),
            school: ExamType::School.to_string(),
            absent: "缺考".to_owned(),
            excused: "請假".to_owned(),
        }
    }

    /// The exam type that `label` names.
    pub fn exam_type(&self, label: &str) -> (r: Option<ExamType>)
        ensures
            r == exam_type_of(self@, label@),
    {
        if same_text(label, self.official.as_str()) {
            Some(ExamType::Official)
        } else if same_text(label, self.school.as_str()) {
            Some(ExamType::School)
        } else {
            None
        }
    }

    /// The absence that `text` marks.
    pub fn mark(&self, text: &str) -> (r: Option<Mark>)
        ensures
            r == mark_of(self@, text@),
    {
        if same_text(text, self.excused.as_str()) {
            Some(Mark::Excused)
        } else if same_text(text, self.absent.as_str()) {
            Some(Mark::Absent)
        } else {
            None
        }
    }

    /// The word shown for an outcome.
    pub fn status(&self, is_absent: bool, is_excused: bool, present: &str) -> (r: String)
        ensures
            r@ == status_word(self@, is_absent, is_excused, present@),
    {
        if is_absent && is_excused {
            self.excused.clone()
        } else if is_absent {
            self.absent.clone()
        } else {
            present.to_owned()
        }
    }
}

} // verus!
