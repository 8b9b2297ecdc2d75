//! A registrant, and the reading of one from a row of the sheet.

use crate::error::ApplicationError;
use crate::error::ApplicationErrorView;
use crate::registration::cell::Cell;
use crate::registration::cell::CellView;
use crate::registration::gender::gender_of;
use crate::registration::gender::Gender;
use crate::text::append_signed_decimal;
use crate::text::same_text;
use crate::text::signed_decimal;
use vstd::prelude::*;
use vstd::string::*;

verus! {

/// A person registered to a convention.
#[derive(Debug, Eq, Hash, PartialOrd)]
pub struct Registrant {
    id: u16,
    first_name: String,
    last_name: String,
    birthday: String,
    age: u8,
    gender: Gender,
    club: Option<String>,
}

/// Mathematical value of a [`Registrant`]. Two registrants are the same
/// person when all of these are equal.
pub struct RegistrantView {
    pub id: u16,
    pub first_name: Seq<char>,
    pub last_name: Seq<char>,
    pub birthday: Seq<char>,
    pub age: u8,
    pub gender: Gender,
    pub club: Option<Seq<char>>,
}

impl View for Registrant {
    type V = RegistrantView;

    closed spec fn view(&self) -> RegistrantView {
        RegistrantView {
            id: self.id,
            first_name: self.first_name@,
            last_name: self.last_name@,
            birthday: self.birthday@,
            age: self.age,
            gender: self.gender,
            club: match self.club {
                Some(club) => Some(club@),
                None => None,
            },
        }
    }
}

impl DeepView for Registrant {
    type V = RegistrantView;

    open spec fn deep_view(&self) -> RegistrantView {
        self@
    }
}

/// View of an optional text.
pub open spec fn optional_text(club: Option<String>) -> Option<Seq<char>> {
    match club {
        Some(club) => Some(club@),
        None => None,
    }
}

impl Registrant {
    pub fn new(
        id: u16,
        first_name: String,
        last_name: String,
        birthday: String,
        age: u8,
        gender: Gender,
        club: Option<String>,
    ) -> (r: Self)
        ensures
            r@ == (RegistrantView {
                id,
                first_name: first_name@,
                last_name: last_name@,
                birthday: birthday@,
                age,
                gender,
                club: optional_text(club),
            }),
    {
        Self { id, first_name, last_name, birthday, age, gender, club }
    }

    pub fn id(&self) -> (r: &u16)
        ensures
            *r == self@.id,
    {
        &self.id
    }

    pub fn first_name(&self) -> (r: &String)
        ensures
            r@ == self@.first_name,
    {
        &self.first_name
    }

    pub fn last_name(&self) -> (r: &String)
        ensures
            r@ == self@.last_name,
    {
        &self.last_name
    }

    pub fn birthday(&self) -> (r: &String)
        ensures
            r@ == self@.birthday,
    {
        &self.birthday
    }

    pub fn age(&self) -> (r: &u8)
        ensures
            *r == self@.age,
    {
        &self.age
    }

    pub fn gender(&self) -> (r: &Gender)
        ensures
            *r == self@.gender,
    {
        &self.gender
    }

    pub fn club(&self) -> (r: &Option<String>)
        ensures
            optional_text(*r) == self@.club,
    {
        &self.club
    }
}

impl Clone for Registrant {
    fn clone(&self) -> (r: Self)
        ensures
            r == *self,
    {
        Self {
            id: self.id,
            first_name: self.first_name.clone(),
            last_name: self.last_name.clone(),
            birthday: self.birthday.clone(),
            age: self.age,
            gender: self.gender,
            club: match &self.club {
                Some(club) => Some(club.clone()),
                None => None,
            },
        }
    }
}

impl PartialEq for Registrant {
    fn eq(&self, other: &Self) -> (r: bool) {
        let same_club = match &self.club {
            Some(a) => match &other.club {
                Some(b) => *a == *b,
                None => false,
            },
            None => other.club.is_none(),
        };
        self.id == other.id && self.first_name == other.first_name && self.last_name
            == other.last_name && self.birthday == other.birthday && self.age == other.age
            && self.gender == other.gender && same_club
    }
}

impl vstd::std_specs::cmp::PartialEqSpecImpl for Registrant {
    open spec fn obeys_eq_spec() -> bool {
        true
    }

    open spec fn eq_spec(&self, other: &Self) -> bool {
        self@ == other@
    }
}

/// The text that marks a registration in an event column.
pub open spec fn registration_mark() -> Seq<char> {
    "VRAI"@
}

/// The number of leading columns that identify the registrant.
pub open spec fn identity_columns() -> int {
    7
}

/// An error about a cell's content.
pub open spec fn wrong_format(detail: Seq<char>) -> ApplicationErrorView {
    ApplicationErrorView::WrongFormat(detail)
}

/// The id in the first column: a number that fits sixteen bits.
pub open spec fn id_of(cell: CellView) -> Result<u16, ApplicationErrorView> {
    match cell {
        CellView::Int(id) => if 0 <= id <= u16::MAX {
            Ok(id as u16)
        } else {
            Err(wrong_format("ID is too large (`"@ + signed_decimal(id as int) + "`)"@))
        },
        CellView::Float { whole, shown } => if whole <= u16::MAX {
            Ok(whole as u16)
        } else {
            Err(wrong_format("ID is too large (`"@ + shown + "`)"@))
        },
        _ => Err(wrong_format("id has the wrong format"@)),
    }
}

/// The first name in the second column: a text.
pub open spec fn first_name_of(cell: CellView) -> Result<Seq<char>, ApplicationErrorView> {
    match cell {
        CellView::Text(name) => Ok(name),
        _ => Err(wrong_format("first_name has the wrong format"@)),
    }
}

/// The last name in the third column: a text.
pub open spec fn last_name_of(cell: CellView) -> Result<Seq<char>, ApplicationErrorView> {
    match cell {
        CellView::Text(name) => Ok(name),
        _ => Err(wrong_format("last_name has the wrong format"@)),
    }
}

/// The birthday in the fourth column: a text or a date, kept as displayed.
pub open spec fn birthday_of(cell: CellView) -> Result<Seq<char>, ApplicationErrorView> {
    match cell {
        CellView::Text(day) => Ok(day),
        CellView::DateTime(day) => Ok(day),
        CellView::DateTimeIso(day) => Ok(day),
        _ => Err(wrong_format("birthday has the wrong format"@)),
    }
}

/// The age in the fifth column: a number that fits eight bits.
pub open spec fn age_of(cell: CellView) -> Result<u8, ApplicationErrorView> {
    match cell {
        CellView::Int(age) => if 0 <= age <= u8::MAX {
            Ok(age as u8)
        } else {
            Err(wrong_format("Age is too large (`"@ + signed_decimal(age as int) + "`)"@))
        },
        CellView::Float { whole, shown } => if whole <= u8::MAX {
            Ok(whole as u8)
        } else {
            Err(wrong_format("Age is too large (`"@ + shown + "`)"@))
        },
        _ => Err(wrong_format("age has the wrong format"@)),
    }
}

/// The gender in the sixth column: one of the two names, as a text.
pub open spec fn gender_in(cell: CellView) -> Result<Gender, ApplicationErrorView> {
    match cell {
        CellView::Text(name) => gender_of(name),
        _ => Err(wrong_format("gender has the wrong format"@)),
    }
}

/// The club in the seventh column: a text, or nothing.
pub open spec fn club_of(cell: CellView) -> Result<Option<Seq<char>>, ApplicationErrorView> {
    match cell {
        CellView::Text(club) => Ok(Some(club)),
        CellView::Empty => Ok(None),
        _ => Err(wrong_format("club has the wrong format"@)),
    }
}

/// Whether a cell of an event column marks a registration.
pub open spec fn is_marked(cell: CellView) -> bool {
    match cell {
        CellView::Text(value) => value == registration_mark(),
        CellView::Bool(value) => value,
        _ => false,
    }
}

fn too_large(what: &str, shown: &str) -> (e: ApplicationError)
    ensures
        e@ == wrong_format(what@ + " is too large (`"@ + shown@ + "`)"@),
{
    let mut detail = String::from_str(what);
    detail.append(" is too large (`");
    detail.append(shown);
    detail.append("`)");
    ApplicationError::WrongFormat(detail)
}

fn wrong_cell(detail: &str) -> (e: ApplicationError)
    ensures
        e@ == wrong_format(detail@),
{
    ApplicationError::WrongFormat(String::from_str(detail))
}

fn shown_int(i: i64) -> (r: String)
    ensures
        r@ == signed_decimal(i as int),
{
    let mut r = String::new();
    append_signed_decimal(&mut r, i);
    r
}

/// Reads the id of a registrant from its cell.
pub fn extract_id(id_cell: &Cell) -> (r: Result<u16, ApplicationError>)
    ensures
        match r {
            Ok(id) => id_of(id_cell@) == Ok::<u16, ApplicationErrorView>(id),
            Err(e) => id_of(id_cell@) == Err::<u16, ApplicationErrorView>(e@),
        },
{
    proof {
        reveal_strlit("ID");
        reveal_strlit(" is too large (`");
        reveal_strlit("ID is too large (`");
    }
    assert("ID"@ + " is too large (`"@ =~= "ID is too large (`"@);
    match id_cell {
        Cell::Int(id) => if 0 <= *id && *id <= 65535 {
            Ok(*id as u16)
        } else {
            Err(too_large("ID", shown_int(*id).as_str()))
        },
        Cell::Float { whole, shown } => if *whole <= 65535 {
            Ok(*whole as u16)
        } else {
            Err(too_large("ID", shown.as_str()))
        },
        _ => Err(wrong_cell("id has the wrong format")),
    }
}

/// Reads the first name of a registrant from its cell.
pub fn extract_first_name(first_name_cell: &Cell) -> (r: Result<&String, ApplicationError>)
    ensures
        match r {
            Ok(name) => first_name_of(first_name_cell@) == Ok::<Seq<char>, ApplicationErrorView>(
                name@,
            ),
            Err(e) => first_name_of(first_name_cell@) == Err::<Seq<char>, ApplicationErrorView>(
                e@,
            ),
        },
{
    match first_name_cell {
        Cell::Text(first_name) => Ok(first_name),
        _ => Err(wrong_cell("first_name has the wrong format")),
    }
}

/// Reads the last name of a registrant from its cell.
pub fn extract_last_name(last_name_cell: &Cell) -> (r: Result<&String, ApplicationError>)
    ensures
        match r {
            Ok(name) => last_name_of(last_name_cell@) == Ok::<Seq<char>, ApplicationErrorView>(
                name@,
            ),
            Err(e) => last_name_of(last_name_cell@) == Err::<Seq<char>, ApplicationErrorView>(e@),
        },
{
    match last_name_cell {
        Cell::Text(last_name) => Ok(last_name),
        _ => Err(wrong_cell("last_name has the wrong format")),
    }
}

/// Reads the birthday of a registrant from its cell.
pub fn extract_birthday(birthday_cell: &Cell) -> (r: Result<String, ApplicationError>)
    ensures
        match r {
            Ok(day) => birthday_of(birthday_cell@) == Ok::<Seq<char>, ApplicationErrorView>(day@),
            Err(e) => birthday_of(birthday_cell@) == Err::<Seq<char>, ApplicationErrorView>(e@),
        },
{
    match birthday_cell {
        Cell::Text(birthday) => Ok(birthday.clone()),
        Cell::DateTime(birthday) => Ok(birthday.clone()),
        Cell::DateTimeIso(birthday) => Ok(birthday.clone()),
        _ => Err(wrong_cell("birthday has the wrong format")),
    }
}

/// Reads the age of a registrant from its cell.
pub fn extract_age(age_cell: &Cell) -> (r: Result<u8, ApplicationError>)
    ensures
        match r {
            Ok(age) => age_of(age_cell@) == Ok::<u8, ApplicationErrorView>(age),
            Err(e) => age_of(age_cell@) == Err::<u8, ApplicationErrorView>(e@),
        },
{
    proof {
        reveal_strlit("Age");
        reveal_strlit(" is too large (`");
        reveal_strlit("Age is too large (`");
    }
    assert("Age"@ + " is too large (`"@ =~= "Age is too large (`"@);
    match age_cell {
        Cell::Int(age) => if 0 <= *age && *age <= 255 {
            Ok(*age as u8)
        } else {
            Err(too_large("Age", shown_int(*age).as_str()))
        },
        Cell::Float { whole, shown } => if *whole <= 255 {
            Ok(*whole as u8)
        } else {
            Err(too_large("Age", shown.as_str()))
        },
        _ => Err(wrong_cell("age has the wrong format")),
    }
}

/// Reads the gender of a registrant from its cell.
pub fn extract_gender(gender_cell: &Cell) -> (r: Result<Gender, ApplicationError>)
    ensures
        match r {
            Ok(gender) => gender_in(gender_cell@) == Ok::<Gender, ApplicationErrorView>(gender),
            Err(e) => gender_in(gender_cell@) == Err::<Gender, ApplicationErrorView>(e@),
        },
{
    match gender_cell {
        Cell::Text(gender) => Gender::try_from(gender),
        _ => Err(wrong_cell("gender has the wrong format")),
    }
}

/// Reads the club of a registrant from its cell.
pub fn extract_club(club_cell: &Cell) -> (r: Result<Option<&String>, ApplicationError>)
    ensures
        match r {
            Ok(Some(club)) => club_of(club_cell@) == Ok::<
                Option<Seq<char>>,
                ApplicationErrorView,
            >(Some(club@)),
            Ok(None) => club_of(club_cell@) == Ok::<Option<Seq<char>>, ApplicationErrorView>(
                None,
            ),
            Err(e) => club_of(club_cell@) == Err::<Option<Seq<char>>, ApplicationErrorView>(e@),
        },
{
    match club_cell {
        Cell::Text(club) => Ok(Some(club)),
        Cell::Empty => Ok(None),
        _ => Err(wrong_cell("club has the wrong format")),
    }
}

/// The error of an outcome, if it is one.
pub open spec fn failure_of<T>(outcome: Result<T, ApplicationErrorView>) -> Option<
    ApplicationErrorView,
> {
    match outcome {
        Ok(_) => None,
        Err(e) => Some(e),
    }
}

/// What is wrong with `cell` as the content of identity column `column`.
pub open spec fn column_failure(column: int, cell: CellView) -> Option<ApplicationErrorView> {
    if column == 0 {
        failure_of(id_of(cell))
    } else if column == 1 {
        failure_of(first_name_of(cell))
    } else if column == 2 {
        failure_of(last_name_of(cell))
    } else if column == 3 {
        failure_of(birthday_of(cell))
    } else if column == 4 {
        failure_of(age_of(cell))
    } else if column == 5 {
        failure_of(gender_in(cell))
    } else {
        failure_of(club_of(cell))
    }
}

/// What is wrong with identity column `column` of `row`: the row ends
/// before it, or its cell is refused.
pub open spec fn failure_at(row: Seq<CellView>, column: int) -> Option<ApplicationErrorView> {
    if row.len() <= column {
        Some(ApplicationErrorView::MisformattedRow)
    } else {
        column_failure(column, row[column])
    }
}

/// The failure of the leftmost identity column, from `column` on, that has one.
pub open spec fn first_failure(row: Seq<CellView>, column: int) -> Option<ApplicationErrorView>
    decreases identity_columns() - column,
{
    if column >= identity_columns() {
        None
    } else {
        match failure_at(row, column) {
            Some(e) => Some(e),
            None => first_failure(row, column + 1),
        }
    }
}

/// The registrant that the identity columns of `row` describe.
pub open spec fn identity_of(row: Seq<CellView>) -> RegistrantView {
    RegistrantView {
        id: id_of(row[0])->Ok_0,
        first_name: first_name_of(row[1])->Ok_0,
        last_name: last_name_of(row[2])->Ok_0,
        birthday: birthday_of(row[3])->Ok_0,
        age: age_of(row[4])->Ok_0,
        gender: gender_in(row[5])->Ok_0,
        club: club_of(row[6])->Ok_0,
    }
}

/// The positions `0..count`, in order.
pub open spec fn positions(count: int) -> Seq<usize> {
    Seq::new(count as nat, |i: int| i as usize)
}

/// The event columns of `row` that are marked, counted from the first
/// column after the identity, in rising order.
pub open spec fn marked_events(row: Seq<CellView>) -> Seq<usize> {
    positions(row.len() - identity_columns()).filter(
        |event: usize| is_marked(row[identity_columns() + event]),
    )
}

/// What a row of the sheet reads as: the registrant and the events it is
/// registered for, or the failure of its leftmost faulty identity column.
pub open spec fn row_of(row: Seq<CellView>) -> Result<
    (RegistrantView, Seq<usize>),
    ApplicationErrorView,
> {
    match first_failure(row, 0) {
        Some(e) => Err(e),
        None => Ok((identity_of(row), marked_events(row))),
    }
}

fn marked(cell: &Cell) -> (r: bool)
    ensures
        r == is_marked(cell@),
{
    match cell {
        Cell::Text(value) => same_text(value.as_str(), "VRAI"),
        Cell::Bool(value) => *value,
        _ => false,
    }
}

/// Create a [`Registrant`] and its list of registered events from a row of the sheet.
pub fn parse_row(row: &[Cell]) -> (r: Result<(Registrant, Vec<usize>), ApplicationError>)
    ensures
        match r {
            Ok(pair) => row_of(row.deep_view()) == Ok::<
                (RegistrantView, Seq<usize>),
                ApplicationErrorView,
            >((pair.0@, pair.1@)),
            Err(e) => row_of(row.deep_view()) == Err::<
                (RegistrantView, Seq<usize>),
                ApplicationErrorView,
            >(e@),
        },
{
    let ghost cells = row.deep_view();
    proof {
        reveal_with_fuel(first_failure, 8);
        assert forall|k: int| 0 <= k < row.len() implies cells[k] == row[k]@ by {}
    }
    if row.len() < 1 {
        return Err(ApplicationError::MisformattedRow);
    }
    let id = match extract_id(&row[0]) {
        Ok(id) => id,
        Err(e) => {
            return Err(e);
        },
    };
    if row.len() < 2 {
        return Err(ApplicationError::MisformattedRow);
    }
    let first_name = match extract_first_name(&row[1]) {
        Ok(first_name) => first_name,
        Err(e) => {
            return Err(e);
        },
    };
    if row.len() < 3 {
        return Err(ApplicationError::MisformattedRow);
    }
    let last_name = match extract_last_name(&row[2]) {
        Ok(last_name) => last_name,
        Err(e) => {
            return Err(e);
        },
    };
    if row.len() < 4 {
        return Err(ApplicationError::MisformattedRow);
    }
    let birthday = match extract_birthday(&row[3]) {
        Ok(birthday) => birthday,
        Err(e) => {
            return Err(e);
        },
    };
    if row.len() < 5 {
        return Err(ApplicationError::MisformattedRow);
    }
    let age = match extract_age(&row[4]) {
        Ok(age) => age,
        Err(e) => {
            return Err(e);
        },
    };
    if row.len() < 6 {
        return Err(ApplicationError::MisformattedRow);
    }
    let gender = match extract_gender(&row[5]) {
        Ok(gender) => gender,
        Err(e) => {
            return Err(e);
        },
    };
    if row.len() < 7 {
        return Err(ApplicationError::MisformattedRow);
    }
    let club = match extract_club(&row[6]) {
        Ok(Some(club)) => Some(club.clone()),
        Ok(None) => None,
        Err(e) => {
            return Err(e);
        },
    };
    let registrant = Registrant::new(
        id,
        first_name.clone(),
        last_name.clone(),
        birthday,
        age,
        gender,
        club,
    );

    let ghost wanted = |event: usize| is_marked(cells[identity_columns() + event]);
    let mut registered_events: Vec<usize> = Vec::new();
    let mut column: usize = 7;
    while column < row.len()
        invariant
            7 <= column <= row.len(),
            cells == row.deep_view(),
            wanted == |event: usize| is_marked(cells[identity_columns() + event]),
            registered_events@ == positions(column - 7).filter(wanted),
        decreases row.len() - column,
    {
        let event: usize = column - 7;
        proof {
            assert(positions(column - 7 + 1) =~= positions(column - 7).push(event));
            positions(column - 7).lemma_filter_push(event, wanted);
        }
        if marked(&row[column]) {
            registered_events.push(event);
        }
        column = column + 1;
    }
    Ok((registrant, registered_events))
}

} // verus!
