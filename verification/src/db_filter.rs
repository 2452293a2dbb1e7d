//! The search filters of the library views (albums, artists, mixes, remote
//! mixes), turned into the conditions that the database query applies.
//!
//! A condition is kept as plain values: the column (or the subquery) it
//! tests, and the test. Each clause of a [`Select`] is joined to the others
//! with `AND`.
use vstd::prelude::*;
use vstd::string::StringExecFns;
use chrono::TimeZone;

use crate::text::string_push;

verus! {

/// How an integer column is compared.
#[derive(Debug, PartialEq, Eq, Structural, Clone, Copy)]
pub enum IntCondition {
    Unspecified,
    Equal,
    EqualNot,
    Greater,
    GreaterEqual,
    Less,
    LessEqual,
}

/// How a text column is compared.
#[derive(Debug, PartialEq, Eq, Structural, Clone, Copy)]
pub enum StringCondition {
    Unspecified,
    Contains,
    ContainsNot,
    Is,
    IsNot,
}

/// How a date column is compared.
#[derive(Debug, PartialEq, Eq, Structural, Clone, Copy)]
pub enum DateCondition {
    Unspecified,
    After,
    Before,
    Null,
    NotNull,
}

/// How a type column is compared.
#[derive(Debug, PartialEq, Eq, Structural, Clone, Copy)]
pub enum TypeCondition {
    Unspecified,
    Is,
    IsNot,
}

/// A value a column is compared with.
#[derive(Debug, Clone, PartialEq)]
pub enum SqlValue {
    Int(i64),
    Text(String),
    /// An instant, in milliseconds since the Unix epoch.
    Time(i64),
    /// An instant (milliseconds since the Unix epoch) given as its display
    /// text, `2021-01-01 00:00:00 UTC`, and compared as text.
    TimeText(i64),
}

/// One test on a column.
#[derive(Debug, Clone, PartialEq)]
pub enum Test {
    Eq(SqlValue),
    Ne(SqlValue),
    Gt(SqlValue),
    Ge(SqlValue),
    Lt(SqlValue),
    Le(SqlValue),
    Like(String),
    NotLike(String),
    IsNull,
    IsNotNull,
}

/// The condition on one column: one test, or two that both must hold.
#[derive(Debug, Clone, PartialEq)]
pub enum Pred {
    One(Test),
    Both(Test, Test),
}

pub enum SqlValueView {
    Int(i64),
    Text(Seq<char>),
    Time(i64),
    TimeText(i64),
}

pub enum TestView {
    Eq(SqlValueView),
    Ne(SqlValueView),
    Gt(SqlValueView),
    Ge(SqlValueView),
    Lt(SqlValueView),
    Le(SqlValueView),
    Like(Seq<char>),
    NotLike(Seq<char>),
    IsNull,
    IsNotNull,
}

pub enum PredView {
    One(TestView),
    Both(TestView, TestView),
}

impl View for SqlValue {
    type V = SqlValueView;

    open spec fn view(&self) -> SqlValueView {
        match self {
            SqlValue::Int(v) => SqlValueView::Int(*v),
            SqlValue::Text(s) => SqlValueView::Text(s@),
            SqlValue::Time(t) => SqlValueView::Time(*t),
            SqlValue::TimeText(t) => SqlValueView::TimeText(*t),
        }
    }
}

impl View for Test {
    type V = TestView;

    open spec fn view(&self) -> TestView {
        match self {
            Test::Eq(v) => TestView::Eq(v@),
            Test::Ne(v) => TestView::Ne(v@),
            Test::Gt(v) => TestView::Gt(v@),
            Test::Ge(v) => TestView::Ge(v@),
            Test::Lt(v) => TestView::Lt(v@),
            Test::Le(v) => TestView::Le(v@),
            Test::Like(p) => TestView::Like(p@),
            Test::NotLike(p) => TestView::NotLike(p@),
            Test::IsNull => TestView::IsNull,
            Test::IsNotNull => TestView::IsNotNull,
        }
    }
}

impl View for Pred {
    type V = PredView;

    open spec fn view(&self) -> PredView {
        match self {
            Pred::One(t) => PredView::One(t@),
            Pred::Both(a, b) => PredView::Both(a@, b@),
        }
    }
}

pub open spec fn pred_opt_view(p: Option<Pred>) -> Option<PredView> {
    match p {
        Some(p) => Some(p@),
        None => None,
    }
}

/// The condition an integer filter puts on its column.
pub open spec fn int_pred(cond: IntCondition, val: i64) -> Option<PredView> {
    let v = SqlValueView::Int(val);
    match cond {
        IntCondition::Equal => Some(PredView::One(TestView::Eq(v))),
        IntCondition::EqualNot => Some(PredView::One(TestView::Ne(v))),
        IntCondition::Greater => Some(PredView::One(TestView::Gt(v))),
        IntCondition::GreaterEqual => Some(PredView::One(TestView::Ge(v))),
        IntCondition::Less => Some(PredView::One(TestView::Lt(v))),
        IntCondition::LessEqual => Some(PredView::One(TestView::Le(v))),
        IntCondition::Unspecified => None,
    }
}

/// The `LIKE` pattern that finds `s` anywhere in a text.
pub open spec fn like_pattern(s: Seq<char>) -> Seq<char> {
    seq!['%'] + s + seq!['%']
}

/// The condition a text filter puts on its column.
pub open spec fn string_pred(cond: StringCondition, s: Seq<char>) -> Option<PredView> {
    match cond {
        StringCondition::Contains => Some(PredView::One(TestView::Like(like_pattern(s)))),
        StringCondition::ContainsNot => Some(PredView::One(TestView::NotLike(like_pattern(s)))),
        StringCondition::Is => Some(PredView::One(TestView::Eq(SqlValueView::Text(s)))),
        StringCondition::IsNot => Some(PredView::One(TestView::Ne(SqlValueView::Text(s)))),
        StringCondition::Unspecified => None,
    }
}

/// The condition a date filter puts on its column; `millis` is the instant
/// in milliseconds since the Unix epoch.
pub open spec fn date_pred(cond: DateCondition, millis: i64) -> Option<PredView> {
    match cond {
        DateCondition::After => Some(PredView::One(TestView::Ge(SqlValueView::Time(millis)))),
        DateCondition::Before => Some(PredView::One(TestView::Le(SqlValueView::Time(millis)))),
        DateCondition::Null => Some(PredView::One(TestView::IsNull)),
        DateCondition::NotNull => Some(PredView::One(TestView::IsNotNull)),
        DateCondition::Unspecified => None,
    }
}

/// The condition a type filter puts on its column.
pub open spec fn type_pred(cond: TypeCondition, val: SqlValueView) -> Option<PredView> {
    match cond {
        TypeCondition::Is => Some(PredView::One(TestView::Eq(val))),
        TypeCondition::IsNot => Some(PredView::One(TestView::Ne(val))),
        TypeCondition::Unspecified => None,
    }
}

/// The condition of an integer filter.
pub fn int_condition_to_expr(cond: IntCondition, val: i64) -> (r: Option<Pred>)
    ensures
        pred_opt_view(r) == int_pred(cond, val),
{
    match cond {
        IntCondition::Equal => Some(Pred::One(Test::Eq(SqlValue::Int(val)))),
        IntCondition::EqualNot => Some(Pred::One(Test::Ne(SqlValue::Int(val)))),
        IntCondition::Greater => Some(Pred::One(Test::Gt(SqlValue::Int(val)))),
        IntCondition::GreaterEqual => Some(Pred::One(Test::Ge(SqlValue::Int(val)))),
        IntCondition::Less => Some(Pred::One(Test::Lt(SqlValue::Int(val)))),
        IntCondition::LessEqual => Some(Pred::One(Test::Le(SqlValue::Int(val)))),
        IntCondition::Unspecified => None,
    }
}

fn like_pattern_of(s: &str) -> (p: String)
    ensures
        p@ == like_pattern(s@),
{
    let mut p = String::new();
    string_push(&mut p, '%');
    p.append(s);
    string_push(&mut p, '%');
    proof {
        assert(p@ =~= like_pattern(s@));
    }
    p
}

/// The condition of a text filter.
pub fn string_condition_to_expr(cond: StringCondition, s: &str) -> (r: Option<Pred>)
    ensures
        pred_opt_view(r) == string_pred(cond, s@),
{
    match cond {
        StringCondition::Contains => Some(Pred::One(Test::Like(like_pattern_of(s)))),
        StringCondition::ContainsNot => Some(Pred::One(Test::NotLike(like_pattern_of(s)))),
        StringCondition::Is => Some(Pred::One(Test::Eq(SqlValue::Text(s.to_owned())))),
        StringCondition::IsNot => Some(Pred::One(Test::Ne(SqlValue::Text(s.to_owned())))),
        StringCondition::Unspecified => None,
    }
}

/// The condition of a date filter; `millis` is the instant in milliseconds
/// since the Unix epoch.
pub fn date_condition_to_expr(cond: DateCondition, millis: i64) -> (r: Option<Pred>)
    ensures
        pred_opt_view(r) == date_pred(cond, millis),
{
    match cond {
        DateCondition::After => Some(Pred::One(Test::Ge(SqlValue::Time(millis)))),
        DateCondition::Before => Some(Pred::One(Test::Le(SqlValue::Time(millis)))),
        DateCondition::Null => Some(Pred::One(Test::IsNull)),
        DateCondition::NotNull => Some(Pred::One(Test::IsNotNull)),
        DateCondition::Unspecified => None,
    }
}

/// The condition of a type filter whose value is a number.
pub fn type_condition_to_expr(cond: TypeCondition, val: i64) -> (r: Option<Pred>)
    ensures
        pred_opt_view(r) == type_pred(cond, SqlValueView::Int(val)),
{
    match cond {
        TypeCondition::Is => Some(Pred::One(Test::Eq(SqlValue::Int(val)))),
        TypeCondition::IsNot => Some(Pred::One(Test::Ne(SqlValue::Int(val)))),
        TypeCondition::Unspecified => None,
    }
}

/// The condition of a type filter whose value is a name.
pub fn type_string_condition_to_expr(cond: TypeCondition, val: &str) -> (r: Option<Pred>)
    ensures
        pred_opt_view(r) == type_pred(cond, SqlValueView::Text(val@)),
{
    match cond {
        TypeCondition::Is => Some(Pred::One(Test::Eq(SqlValue::Text(val.to_owned())))),
        TypeCondition::IsNot => Some(Pred::One(Test::Ne(SqlValue::Text(val.to_owned())))),
        TypeCondition::Unspecified => None,
    }
}

/// The days from 0001-01-01 to `y`-01-01 in the proleptic Gregorian
/// calendar (negative before year 1; year 0 is 1 BCE).
pub open spec fn days_before_year(y: int) -> int {
    365 * (y - 1) + (y - 1) / 4 - (y - 1) / 100 + (y - 1) / 400
}

/// The instant `year`-01-01 00:00:00 UTC, in milliseconds since the Unix
/// epoch (1970-01-01).
pub open spec fn utc_year_start_millis(year: i32) -> i64 {
    ((days_before_year(year as int) - days_before_year(1970)) * 86_400_000) as i64
}

/// Whether chrono can represent dates of `year`.
pub open spec fn chrono_year(year: int) -> bool {
    -262143 <= year <= 262142
}

/// `Utc.with_ymd_and_hms(year, 1, 1, 0, 0, 0)` of chrono, as milliseconds
/// since the Unix epoch (`timestamp_millis`). chrono has the first of
/// January of every year from -262143 through 262142, and of no other, and
/// counts days in the proleptic Gregorian calendar, in UTC without leap
/// seconds.
#[verifier::external_body]
fn utc_year_start(year: i32) -> (r: Option<i64>)
    ensures
        r is Some <==> chrono_year(year as int),
        r matches Some(ms) ==> ms == utc_year_start_millis(year),
{
    match chrono::Utc.with_ymd_and_hms(year, 1, 1, 0, 0, 0).single() {
        Some(d) => Some(d.timestamp_millis()),
        None => None,
    }
}

/// A filter on an integer column.
#[derive(Debug, Clone, PartialEq)]
pub struct IntFilter {
    pub condition: IntCondition,
    pub value: i32,
}

/// A filter on the year a date column falls in.
#[derive(Debug, Clone, PartialEq)]
pub struct YearFilter {
    pub condition: IntCondition,
    pub value: i32,
}

/// A filter on a text column.
#[derive(Debug, Clone, PartialEq)]
pub struct StringFilter {
    pub condition: StringCondition,
    pub value: String,
}

/// A filter on an id.
#[derive(Debug, Clone, PartialEq)]
pub struct IdFilter {
    pub value: i64,
}

/// A filter on a date column; the value is in milliseconds since the Unix
/// epoch.
#[derive(Debug, Clone, PartialEq)]
pub struct DateFilter {
    pub condition: DateCondition,
    pub value: i64,
}

/// A filter on a type column holding a number.
#[derive(Debug, Clone, PartialEq)]
pub struct TypeFilter {
    pub condition: TypeCondition,
    pub value: i32,
}

/// A filter on a type column holding a name.
#[derive(Debug, Clone, PartialEq)]
pub struct TypeStringFilter {
    pub condition: TypeCondition,
    pub value: String,
}

/// The condition of a year filter: the years are turned into their first
/// instants. `Equal` keeps the instants of that year; `EqualNot` compares
/// with the start of the next year given as text.
pub open spec fn year_pred(cond: IntCondition, year: i32) -> Option<PredView> {
    let start = SqlValueView::Time(utc_year_start_millis(year));
    let next = utc_year_start_millis((year + 1) as i32);
    match cond {
        IntCondition::Equal => Some(
            PredView::Both(TestView::Ge(start), TestView::Lt(SqlValueView::Time(next))),
        ),
        IntCondition::EqualNot => Some(
            PredView::Both(TestView::Lt(start), TestView::Gt(SqlValueView::TimeText(next))),
        ),
        IntCondition::Greater => Some(PredView::One(TestView::Gt(start))),
        IntCondition::GreaterEqual => Some(PredView::One(TestView::Ge(start))),
        IntCondition::Less => Some(PredView::One(TestView::Lt(start))),
        IntCondition::LessEqual => Some(PredView::One(TestView::Le(start))),
        IntCondition::Unspecified => None,
    }
}

/// A year filter can be turned into a condition: its year, and for
/// `Equal` and `EqualNot` the next one too, are years chrono can represent.
pub open spec fn year_filter_ok(f: YearFilter) -> bool {
    &&& chrono_year(f.value as int)
    &&& (f.condition == IntCondition::Equal || f.condition == IntCondition::EqualNot)
        ==> chrono_year(f.value + 1)
}

impl IntFilter {
    pub fn get_expr(&self) -> (r: Option<Pred>)
        ensures
            pred_opt_view(r) == int_pred(self.condition, self.value as i64),
    {
        int_condition_to_expr(self.condition, self.value as i64)
    }
}

impl YearFilter {
    pub fn get_expr(&self) -> (r: Option<Pred>)
        requires
            year_filter_ok(*self),
        ensures
            pred_opt_view(r) == year_pred(self.condition, self.value),
    {
        let start = utc_year_start(self.value).unwrap();
        match self.condition {
            IntCondition::Equal => {
                let next = utc_year_start(self.value + 1).unwrap();
                Some(Pred::Both(Test::Ge(SqlValue::Time(start)), Test::Lt(SqlValue::Time(next))))
            },
            IntCondition::EqualNot => {
                let next = utc_year_start(self.value + 1).unwrap();
                Some(
                    Pred::Both(Test::Lt(SqlValue::Time(start)), Test::Gt(SqlValue::TimeText(next))),
                )
            },
            IntCondition::Greater => Some(Pred::One(Test::Gt(SqlValue::Time(start)))),
            IntCondition::GreaterEqual => Some(Pred::One(Test::Ge(SqlValue::Time(start)))),
            IntCondition::Less => Some(Pred::One(Test::Lt(SqlValue::Time(start)))),
            IntCondition::LessEqual => Some(Pred::One(Test::Le(SqlValue::Time(start)))),
            IntCondition::Unspecified => None,
        }
    }
}

impl StringFilter {
    pub fn get_expr(&self) -> (r: Option<Pred>)
        ensures
            pred_opt_view(r) == string_pred(self.condition, self.value@),
    {
        string_condition_to_expr(self.condition, self.value.as_str())
    }
}

impl IdFilter {
    pub fn get_expr(&self) -> (r: Option<Pred>)
        ensures
            pred_opt_view(r) == Some(PredView::One(TestView::Eq(SqlValueView::Int(self.value)))),
    {
        Some(Pred::One(Test::Eq(SqlValue::Int(self.value))))
    }
}

impl DateFilter {
    pub fn get_expr(&self) -> (r: Option<Pred>)
        ensures
            pred_opt_view(r) == date_pred(self.condition, self.value),
    {
        date_condition_to_expr(self.condition, self.value)
    }
}

impl TypeFilter {
    pub fn get_expr(&self) -> (r: Option<Pred>)
        ensures
            pred_opt_view(r) == type_pred(self.condition, SqlValueView::Int(self.value as i64)),
    {
        type_condition_to_expr(self.condition, self.value as i64)
    }
}

impl TypeStringFilter {
    pub fn get_expr(&self) -> (r: Option<Pred>)
        ensures
            pred_opt_view(r) == type_pred(self.condition, SqlValueView::Text(self.value@)),
    {
        type_string_condition_to_expr(self.condition, self.value.as_str())
    }
}

/// A query over the rows of one table, narrowed by clauses that all must
/// hold; `F` names what a clause tests.
#[derive(Debug, Clone, PartialEq)]
pub struct Select<F> {
    pub clauses: Vec<(F, Pred)>,
}

pub open spec fn clause_view<F>(c: (F, Pred)) -> (F, PredView) {
    (c.0, c.1@)
}

pub open spec fn clause_opt_view<F>(c: Option<(F, Pred)>) -> Option<(F, PredView)> {
    match c {
        Some(c) => Some(clause_view(c)),
        None => None,
    }
}

pub open spec fn on_field<F>(field: F, p: Option<PredView>) -> Option<(F, PredView)> {
    match p {
        Some(p) => Some((field, p)),
        None => None,
    }
}

pub open spec fn opt_seq<A>(o: Option<A>) -> Seq<A> {
    match o {
        Some(a) => seq![a],
        None => Seq::empty(),
    }
}

impl<F> Select<F> {
    pub open spec fn clauses_view(&self) -> Seq<(F, PredView)> {
        self.clauses@.map_values(|c: (F, Pred)| clause_view(c))
    }

    /// A query with no clause: every row.
    pub fn new() -> (s: Self)
        ensures
            s.clauses_view() == Seq::<(F, PredView)>::empty(),
    {
        let s = Select { clauses: Vec::new() };
        proof {
            assert(s.clauses_view() =~= Seq::<(F, PredView)>::empty());
        }
        s
    }

    /// Adds a clause, if there is one.
    fn add_clause(&mut self, c: Option<(F, Pred)>)
        ensures
            final(self).clauses_view() == old(self).clauses_view() + opt_seq(clause_opt_view(c)),
    {
        match c {
            Some(c) => {
                let ghost cv = clause_view(c);
                self.clauses.push(c);
                proof {
                    assert(self.clauses_view() =~= old(self).clauses_view() + seq![cv]);
                }
            },
            None => {
                proof {
                    assert(self.clauses_view() =~= old(self).clauses_view() + Seq::empty());
                }
            },
        }
    }
}

/// Narrowing a query by the filters of a request.
pub trait SelectQcmMsgFilters: Sized {
    type Filter;

    /// The filters that can be turned into clauses.
    spec fn filters_accepted(filters: Seq<Self::Filter>) -> bool;

    /// The query with one clause more for each filter that sets a condition,
    /// in the order of the filters.
    fn qcm_filters(self, filters: &[Self::Filter]) -> Self
        requires
            Self::filters_accepted(filters@),
    ;
}

/// What a clause on an album tests.
#[derive(Debug, PartialEq, Eq, Structural, Clone, Copy)]
pub enum AlbumField {
    Name,
    TrackCount,
    Duration,
    PublishTime,
    AddedAt,
    Type,
    DiscCount,
    /// The last play, kept beside the album.
    LastPlayedAt,
    /// Some song of the album has an artist whose name passes the test.
    SongArtistName,
    /// Some artist of the album has an id that passes the test.
    AlbumArtistId,
    /// Some song of the album has an artist whose id passes the test.
    SongArtistId,
}

#[derive(Debug, Clone, PartialEq)]
pub enum AlbumFilterPayload {
    ArtistNameFilter(StringFilter),
    AlbumArtistIdFilter(IdFilter),
    ArtistIdFilter(IdFilter),
    TitleFilter(StringFilter),
    TrackFilter(IntFilter),
    DurationFilter(IntFilter),
    YearFilter(YearFilter),
    AddedDateFilter(DateFilter),
    TypeFilter(TypeFilter),
    DiscCountFilter(IntFilter),
    LastPlayedAtFilter(DateFilter),
}

/// One filter of an album request; one with no payload sets no condition.
#[derive(Debug, Clone, PartialEq)]
pub struct AlbumFilter {
    pub payload: Option<AlbumFilterPayload>,
}

/// The clause an album filter adds, if any.
pub open spec fn album_clause(f: AlbumFilter) -> Option<(AlbumField, PredView)> {
    match f.payload {
        Some(AlbumFilterPayload::ArtistNameFilter(x)) => on_field(
            AlbumField::SongArtistName,
            string_pred(x.condition, x.value@),
        ),
        Some(AlbumFilterPayload::AlbumArtistIdFilter(x)) => on_field(
            AlbumField::AlbumArtistId,
            Some(PredView::One(TestView::Eq(SqlValueView::Int(x.value)))),
        ),
        Some(AlbumFilterPayload::ArtistIdFilter(x)) => on_field(
            AlbumField::SongArtistId,
            Some(PredView::One(TestView::Eq(SqlValueView::Int(x.value)))),
        ),
        Some(AlbumFilterPayload::TitleFilter(x)) => on_field(
            AlbumField::Name,
            string_pred(x.condition, x.value@),
        ),
        Some(AlbumFilterPayload::TrackFilter(x)) => on_field(
            AlbumField::TrackCount,
            int_pred(x.condition, x.value as i64),
        ),
        Some(AlbumFilterPayload::DurationFilter(x)) => on_field(
            AlbumField::Duration,
            int_pred(x.condition, x.value as i64),
        ),
        Some(AlbumFilterPayload::YearFilter(x)) => on_field(
            AlbumField::PublishTime,
            year_pred(x.condition, x.value),
        ),
        Some(AlbumFilterPayload::AddedDateFilter(x)) => on_field(
            AlbumField::AddedAt,
            date_pred(x.condition, x.value),
        ),
        Some(AlbumFilterPayload::TypeFilter(x)) => on_field(
            AlbumField::Type,
            type_pred(x.condition, SqlValueView::Int(x.value as i64)),
        ),
        Some(AlbumFilterPayload::DiscCountFilter(x)) => on_field(
            AlbumField::DiscCount,
            int_pred(x.condition, x.value as i64),
        ),
        Some(AlbumFilterPayload::LastPlayedAtFilter(x)) => on_field(
            AlbumField::LastPlayedAt,
            date_pred(x.condition, x.value),
        ),
        None => None,
    }
}

/// The album column each kind of album filter is about: the artist name of
/// the songs, the album's artists, the songs' artists, the title, the track
/// count, the duration, the year of publication, the date added, the type,
/// the disc count and the last play.
pub open spec fn album_payload_field(p: AlbumFilterPayload) -> AlbumField {
    match p {
        AlbumFilterPayload::ArtistNameFilter(_) => AlbumField::SongArtistName,
        AlbumFilterPayload::AlbumArtistIdFilter(_) => AlbumField::AlbumArtistId,
        AlbumFilterPayload::ArtistIdFilter(_) => AlbumField::SongArtistId,
        AlbumFilterPayload::TitleFilter(_) => AlbumField::Name,
        AlbumFilterPayload::TrackFilter(_) => AlbumField::TrackCount,
        AlbumFilterPayload::DurationFilter(_) => AlbumField::Duration,
        AlbumFilterPayload::YearFilter(_) => AlbumField::PublishTime,
        AlbumFilterPayload::AddedDateFilter(_) => AlbumField::AddedAt,
        AlbumFilterPayload::TypeFilter(_) => AlbumField::Type,
        AlbumFilterPayload::DiscCountFilter(_) => AlbumField::DiscCount,
        AlbumFilterPayload::LastPlayedAtFilter(_) => AlbumField::LastPlayedAt,
    }
}

/// An album filter can be turned into a clause: a year filter's years are
/// in chrono's range.
pub open spec fn album_filter_ok(f: AlbumFilter) -> bool {
    f.payload matches Some(AlbumFilterPayload::YearFilter(y)) ==> year_filter_ok(y)
}

/// The clauses of a list of album filters, in order.
pub open spec fn album_clauses(fs: Seq<AlbumFilter>) -> Seq<(AlbumField, PredView)>
    decreases fs.len(),
{
    if fs.len() == 0 {
        Seq::empty()
    } else {
        album_clauses(fs.drop_last()) + opt_seq(album_clause(fs.last()))
    }
}

fn with_field<F>(field: F, p: Option<Pred>) -> (r: Option<(F, Pred)>)
    ensures
        clause_opt_view(r) == on_field(field, pred_opt_view(p)),
{
    match p {
        Some(p) => Some((field, p)),
        None => None,
    }
}

fn album_filter_clause(f: &AlbumFilter) -> (r: Option<(AlbumField, Pred)>)
    requires
        album_filter_ok(*f),
    ensures
        clause_opt_view(r) == album_clause(*f),
        r matches Some((field, _)) ==> (f.payload matches Some(p) && field == album_payload_field(p)),
{
    match &f.payload {
        Some(AlbumFilterPayload::ArtistNameFilter(x)) => with_field(
            AlbumField::SongArtistName,
            x.get_expr(),
        ),
        Some(AlbumFilterPayload::AlbumArtistIdFilter(x)) => with_field(
            AlbumField::AlbumArtistId,
            x.get_expr(),
        ),
        Some(AlbumFilterPayload::ArtistIdFilter(x)) => with_field(
            AlbumField::SongArtistId,
            x.get_expr(),
        ),
        Some(AlbumFilterPayload::TitleFilter(x)) => with_field(AlbumField::Name, x.get_expr()),
        Some(AlbumFilterPayload::TrackFilter(x)) => with_field(AlbumField::TrackCount, x.get_expr()),
        Some(AlbumFilterPayload::DurationFilter(x)) => with_field(
            AlbumField::Duration,
            x.get_expr(),
        ),
        Some(AlbumFilterPayload::YearFilter(x)) => with_field(
            AlbumField::PublishTime,
            x.get_expr(),
        ),
        Some(AlbumFilterPayload::AddedDateFilter(x)) => with_field(
            AlbumField::AddedAt,
            x.get_expr(),
        ),
        Some(AlbumFilterPayload::TypeFilter(x)) => with_field(AlbumField::Type, x.get_expr()),
        Some(AlbumFilterPayload::DiscCountFilter(x)) => with_field(
            AlbumField::DiscCount,
            x.get_expr(),
        ),
        Some(AlbumFilterPayload::LastPlayedAtFilter(x)) => with_field(
            AlbumField::LastPlayedAt,
            x.get_expr(),
        ),
        None => None,
    }
}

impl SelectQcmMsgFilters for Select<AlbumField> {
    type Filter = AlbumFilter;

    open spec fn filters_accepted(filters: Seq<AlbumFilter>) -> bool {
        forall|i: int| 0 <= i < filters.len() ==> album_filter_ok(#[trigger] filters[i])
    }

    fn qcm_filters(self, filters: &[AlbumFilter]) -> (res: Self)
        ensures
            res.clauses_view() == self.clauses_view() + album_clauses(filters@),
    {
        let ghost start = self.clauses_view();
        let mut select = self;
        let mut i: usize = 0;
        while i < filters.len()
            invariant
                i <= filters@.len(),
                forall|j: int| 0 <= j < filters@.len() ==> album_filter_ok(#[trigger] filters@[j]),
                select.clauses_view() == start + album_clauses(filters@.take(i as int)),
            decreases filters@.len() - i,
        {
            let c = album_filter_clause(&filters[i]);
            select.add_clause(c);
            proof {
                assert(filters@.take(i + 1).drop_last() =~= filters@.take(i as int));
                assert(filters@.take(i + 1).last() == filters@[i as int]);
                assert(select.clauses_view() =~= start + album_clauses(filters@.take(i + 1)));
            }
            i = i + 1;
        }
        proof {
            assert(filters@.take(filters@.len() as int) =~= filters@);
        }
        select
    }
}

/// What a clause on an artist tests.
#[derive(Debug, PartialEq, Eq, Structural, Clone, Copy)]
pub enum ArtistField {
    Name,
    AddedAt,
    /// Some album of the artist has a title that passes the test.
    AlbumTitle,
}

#[derive(Debug, Clone, PartialEq)]
pub enum ArtistFilterPayload {
    NameFilter(StringFilter),
    AddedDateFilter(DateFilter),
    AlbumTitleFilter(StringFilter),
    /// A kind of filter that sets no condition here.
    Other,
}

/// One filter of an artist request; one with no payload sets no condition.
#[derive(Debug, Clone, PartialEq)]
pub struct ArtistFilter {
    pub payload: Option<ArtistFilterPayload>,
}

/// The clause an artist filter adds, if any.
pub open spec fn artist_clause(f: ArtistFilter) -> Option<(ArtistField, PredView)> {
    match f.payload {
        Some(ArtistFilterPayload::NameFilter(x)) => on_field(ArtistField::Name, string_pred(x.condition, x.value@)),
        Some(ArtistFilterPayload::AddedDateFilter(x)) => on_field(ArtistField::AddedAt, date_pred(x.condition, x.value)),
        Some(ArtistFilterPayload::AlbumTitleFilter(x)) => on_field(ArtistField::AlbumTitle, string_pred(x.condition, x.value@)),
        Some(ArtistFilterPayload::Other) => None,
        None => None,
    }
}

/// The artist column each kind of artist filter is about: the name, the
/// date added and the titles of the artist's albums; a filter of another
/// kind is about none.
pub open spec fn artist_payload_field(p: ArtistFilterPayload) -> Option<ArtistField> {
    match p {
        ArtistFilterPayload::NameFilter(_) => Some(ArtistField::Name),
        ArtistFilterPayload::AddedDateFilter(_) => Some(ArtistField::AddedAt),
        ArtistFilterPayload::AlbumTitleFilter(_) => Some(ArtistField::AlbumTitle),
        ArtistFilterPayload::Other => None,
    }
}

/// The clauses of a list of artist filters, in order.
pub open spec fn artist_clauses(fs: Seq<ArtistFilter>) -> Seq<(ArtistField, PredView)>
    decreases fs.len(),
{
    if fs.len() == 0 {
        Seq::empty()
    } else {
        artist_clauses(fs.drop_last()) + opt_seq(artist_clause(fs.last()))
    }
}

fn artist_filter_clause(f: &ArtistFilter) -> (r: Option<(ArtistField, Pred)>)
    ensures
        clause_opt_view(r) == artist_clause(*f),
        r matches Some((field, _)) ==> (f.payload matches Some(p) && artist_payload_field(p) == Some(field)),
{
    match &f.payload {
        Some(ArtistFilterPayload::NameFilter(x)) => with_field(ArtistField::Name, x.get_expr()),
        Some(ArtistFilterPayload::AddedDateFilter(x)) => with_field(ArtistField::AddedAt, x.get_expr()),
        Some(ArtistFilterPayload::AlbumTitleFilter(x)) => with_field(ArtistField::AlbumTitle, x.get_expr()),
        Some(ArtistFilterPayload::Other) => None,
        None => None,
    }
}

impl SelectQcmMsgFilters for Select<ArtistField> {
    type Filter = ArtistFilter;

    open spec fn filters_accepted(filters: Seq<ArtistFilter>) -> bool {
        true
    }

    fn qcm_filters(self, filters: &[ArtistFilter]) -> (res: Self)
        ensures
            res.clauses_view() == self.clauses_view() + artist_clauses(filters@),
    {
        let ghost start = self.clauses_view();
        let mut select = self;
        let mut i: usize = 0;
        while i < filters.len()
            invariant
                i <= filters@.len(),
                select.clauses_view() == start + artist_clauses(filters@.take(i as int)),
            decreases filters@.len() - i,
        {
            let c = artist_filter_clause(&filters[i]);
            select.add_clause(c);
            proof {
                assert(filters@.take(i + 1).drop_last() =~= filters@.take(i as int));
                assert(filters@.take(i + 1).last() == filters@[i as int]);
                assert(select.clauses_view() =~= start + artist_clauses(filters@.take(i + 1)));
            }
            i = i + 1;
        }
        proof {
            assert(filters@.take(filters@.len() as int) =~= filters@);
        }
        select
    }
}

/// What a clause on a mix tests.
#[derive(Debug, PartialEq, Eq, Structural, Clone, Copy)]
pub enum MixField {
    Name,
    TrackCount,
    AddedAt,
}

#[derive(Debug, Clone, PartialEq)]
pub enum MixFilterPayload {
    NameFilter(StringFilter),
    TrackFilter(IntFilter),
    AddedDateFilter(DateFilter),
    /// A kind of filter that sets no condition here.
    Other,
}

/// One filter of a mix request; one with no payload sets no condition.
#[derive(Debug, Clone, PartialEq)]
pub struct MixFilter {
    pub payload: Option<MixFilterPayload>,
}

/// The clause a mix filter adds, if any.
pub open spec fn mix_clause(f: MixFilter) -> Option<(MixField, PredView)> {
    match f.payload {
        Some(MixFilterPayload::NameFilter(x)) => on_field(MixField::Name, string_pred(x.condition, x.value@)),
        Some(MixFilterPayload::TrackFilter(x)) => on_field(MixField::TrackCount, int_pred(x.condition, x.value as i64)),
        Some(MixFilterPayload::AddedDateFilter(x)) => on_field(MixField::AddedAt, date_pred(x.condition, x.value)),
        Some(MixFilterPayload::Other) => None,
        None => None,
    }
}

/// The mix column each kind of mix filter is about: the name, the track
/// count and the date added; a filter of another kind is about none.
pub open spec fn mix_payload_field(p: MixFilterPayload) -> Option<MixField> {
    match p {
        MixFilterPayload::NameFilter(_) => Some(MixField::Name),
        MixFilterPayload::TrackFilter(_) => Some(MixField::TrackCount),
        MixFilterPayload::AddedDateFilter(_) => Some(MixField::AddedAt),
        MixFilterPayload::Other => None,
    }
}

/// The clauses of a list of mix filters, in order.
pub open spec fn mix_clauses(fs: Seq<MixFilter>) -> Seq<(MixField, PredView)>
    decreases fs.len(),
{
    if fs.len() == 0 {
        Seq::empty()
    } else {
        mix_clauses(fs.drop_last()) + opt_seq(mix_clause(fs.last()))
    }
}

fn mix_filter_clause(f: &MixFilter) -> (r: Option<(MixField, Pred)>)
    ensures
        clause_opt_view(r) == mix_clause(*f),
        r matches Some((field, _)) ==> (f.payload matches Some(p) && mix_payload_field(p) == Some(field)),
{
    match &f.payload {
        Some(MixFilterPayload::NameFilter(x)) => with_field(MixField::Name, x.get_expr()),
        Some(MixFilterPayload::TrackFilter(x)) => with_field(MixField::TrackCount, x.get_expr()),
        Some(MixFilterPayload::AddedDateFilter(x)) => with_field(MixField::AddedAt, x.get_expr()),
        Some(MixFilterPayload::Other) => None,
        None => None,
    }
}

impl SelectQcmMsgFilters for Select<MixField> {
    type Filter = MixFilter;

    open spec fn filters_accepted(filters: Seq<MixFilter>) -> bool {
        true
    }

    fn qcm_filters(self, filters: &[MixFilter]) -> (res: Self)
        ensures
            res.clauses_view() == self.clauses_view() + mix_clauses(filters@),
    {
        let ghost start = self.clauses_view();
        let mut select = self;
        let mut i: usize = 0;
        while i < filters.len()
            invariant
                i <= filters@.len(),
                select.clauses_view() == start + mix_clauses(filters@.take(i as int)),
            decreases filters@.len() - i,
        {
            let c = mix_filter_clause(&filters[i]);
            select.add_clause(c);
            proof {
                assert(filters@.take(i + 1).drop_last() =~= filters@.take(i as int));
                assert(filters@.take(i + 1).last() == filters@[i as int]);
                assert(select.clauses_view() =~= start + mix_clauses(filters@.take(i + 1)));
            }
            i = i + 1;
        }
        proof {
            assert(filters@.take(filters@.len() as int) =~= filters@);
        }
        select
    }
}

/// What a clause on a remote mix tests.
#[derive(Debug, PartialEq, Eq, Structural, Clone, Copy)]
pub enum RemoteMixField {
    Name,
    MixType,
    TrackCount,
}

#[derive(Debug, Clone, PartialEq)]
pub enum RemoteMixFilterPayload {
    NameFilter(StringFilter),
    TypeFilter(TypeStringFilter),
    TrackFilter(IntFilter),
}

/// One filter of a remote mix request; one with no payload sets no condition.
#[derive(Debug, Clone, PartialEq)]
pub struct RemoteMixFilter {
    pub payload: Option<RemoteMixFilterPayload>,
}

/// The clause a remote mix filter adds, if any.
pub open spec fn remote_mix_clause(f: RemoteMixFilter) -> Option<(RemoteMixField, PredView)> {
    match f.payload {
        Some(RemoteMixFilterPayload::NameFilter(x)) => on_field(RemoteMixField::Name, string_pred(x.condition, x.value@)),
        Some(RemoteMixFilterPayload::TypeFilter(x)) => on_field(RemoteMixField::MixType, type_pred(x.condition, SqlValueView::Text(x.value@))),
        Some(RemoteMixFilterPayload::TrackFilter(x)) => on_field(RemoteMixField::TrackCount, int_pred(x.condition, x.value as i64)),
        None => None,
    }
}

/// The remote mix column each kind of remote mix filter is about: the
/// name, the mix type and the track count.
pub open spec fn remote_mix_payload_field(p: RemoteMixFilterPayload) -> RemoteMixField {
    match p {
        RemoteMixFilterPayload::NameFilter(_) => RemoteMixField::Name,
        RemoteMixFilterPayload::TypeFilter(_) => RemoteMixField::MixType,
        RemoteMixFilterPayload::TrackFilter(_) => RemoteMixField::TrackCount,
    }
}

/// The clauses of a list of remote mix filters, in order.
pub open spec fn remote_mix_clauses(fs: Seq<RemoteMixFilter>) -> Seq<(RemoteMixField, PredView)>
    decreases fs.len(),
{
    if fs.len() == 0 {
        Seq::empty()
    } else {
        remote_mix_clauses(fs.drop_last()) + opt_seq(remote_mix_clause(fs.last()))
    }
}

fn remote_mix_filter_clause(f: &RemoteMixFilter) -> (r: Option<(RemoteMixField, Pred)>)
    ensures
        clause_opt_view(r) == remote_mix_clause(*f),
        r matches Some((field, _)) ==> (f.payload matches Some(p) && field == remote_mix_payload_field(p)),
{
    match &f.payload {
        Some(RemoteMixFilterPayload::NameFilter(x)) => with_field(RemoteMixField::Name, x.get_expr()),
        Some(RemoteMixFilterPayload::TypeFilter(x)) => with_field(RemoteMixField::MixType, x.get_expr()),
        Some(RemoteMixFilterPayload::TrackFilter(x)) => with_field(RemoteMixField::TrackCount, x.get_expr()),
        None => None,
    }
}

impl SelectQcmMsgFilters for Select<RemoteMixField> {
    type Filter = RemoteMixFilter;

    open spec fn filters_accepted(filters: Seq<RemoteMixFilter>) -> bool {
        true
    }

    fn qcm_filters(self, filters: &[RemoteMixFilter]) -> (res: Self)
        ensures
            res.clauses_view() == self.clauses_view() + remote_mix_clauses(filters@),
    {
        let ghost start = self.clauses_view();
        let mut select = self;
        let mut i: usize = 0;
        while i < filters.len()
            invariant
                i <= filters@.len(),
                select.clauses_view() == start + remote_mix_clauses(filters@.take(i as int)),
            decreases filters@.len() - i,
        {
            let c = remote_mix_filter_clause(&filters[i]);
            select.add_clause(c);
            proof {
                assert(filters@.take(i + 1).drop_last() =~= filters@.take(i as int));
                assert(filters@.take(i + 1).last() == filters@[i as int]);
                assert(select.clauses_view() =~= start + remote_mix_clauses(filters@.take(i + 1)));
            }
            i = i + 1;
        }
        proof {
            assert(filters@.take(filters@.len() as int) =~= filters@);
        }
        select
    }
}

/// Narrowing by one list of album filters and then by another is
/// narrowing by the two lists one after the other: the clauses of the
/// joined list are those of the first list, then those of the second.
pub proof fn lemma_album_clauses_append(a: Seq<AlbumFilter>, b: Seq<AlbumFilter>)
    ensures
        album_clauses(a + b) == album_clauses(a) + album_clauses(b),
    decreases b.len(),
{
    if b.len() == 0 {
        assert(a + b =~= a);
        assert(album_clauses(b) =~= Seq::<(AlbumField, PredView)>::empty());
        assert(album_clauses(a) + album_clauses(b) =~= album_clauses(a));
    } else {
        lemma_album_clauses_append(a, b.drop_last());
        assert((a + b).drop_last() =~= a + b.drop_last());
        assert((a + b).last() == b.last());
        assert(album_clauses(a + b) =~= album_clauses(a) + album_clauses(b));
    }
}

/// Narrowing by one list of artist filters and then by another is
/// narrowing by the two lists one after the other: the clauses of the
/// joined list are those of the first list, then those of the second.
pub proof fn lemma_artist_clauses_append(a: Seq<ArtistFilter>, b: Seq<ArtistFilter>)
    ensures
        artist_clauses(a + b) == artist_clauses(a) + artist_clauses(b),
    decreases b.len(),
{
    if b.len() == 0 {
        assert(a + b =~= a);
        assert(artist_clauses(b) =~= Seq::<(ArtistField, PredView)>::empty());
        assert(artist_clauses(a) + artist_clauses(b) =~= artist_clauses(a));
    } else {
        lemma_artist_clauses_append(a, b.drop_last());
        assert((a + b).drop_last() =~= a + b.drop_last());
        assert((a + b).last() == b.last());
        assert(artist_clauses(a + b) =~= artist_clauses(a) + artist_clauses(b));
    }
}

/// Narrowing by one list of mix filters and then by another is
/// narrowing by the two lists one after the other: the clauses of the
/// joined list are those of the first list, then those of the second.
pub proof fn lemma_mix_clauses_append(a: Seq<MixFilter>, b: Seq<MixFilter>)
    ensures
        mix_clauses(a + b) == mix_clauses(a) + mix_clauses(b),
    decreases b.len(),
{
    if b.len() == 0 {
        assert(a + b =~= a);
        assert(mix_clauses(b) =~= Seq::<(MixField, PredView)>::empty());
        assert(mix_clauses(a) + mix_clauses(b) =~= mix_clauses(a));
    } else {
        lemma_mix_clauses_append(a, b.drop_last());
        assert((a + b).drop_last() =~= a + b.drop_last());
        assert((a + b).last() == b.last());
        assert(mix_clauses(a + b) =~= mix_clauses(a) + mix_clauses(b));
    }
}

/// Narrowing by one list of remote mix filters and then by another is
/// narrowing by the two lists one after the other: the clauses of the
/// joined list are those of the first list, then those of the second.
pub proof fn lemma_remote_mix_clauses_append(a: Seq<RemoteMixFilter>, b: Seq<RemoteMixFilter>)
    ensures
        remote_mix_clauses(a + b) == remote_mix_clauses(a) + remote_mix_clauses(b),
    decreases b.len(),
{
    if b.len() == 0 {
        assert(a + b =~= a);
        assert(remote_mix_clauses(b) =~= Seq::<(RemoteMixField, PredView)>::empty());
        assert(remote_mix_clauses(a) + remote_mix_clauses(b) =~= remote_mix_clauses(a));
    } else {
        lemma_remote_mix_clauses_append(a, b.drop_last());
        assert((a + b).drop_last() =~= a + b.drop_last());
        assert((a + b).last() == b.last());
        assert(remote_mix_clauses(a + b) =~= remote_mix_clauses(a) + remote_mix_clauses(b));
    }
}

/// An album filter's clause is on the column its kind names: a duration
/// filter tests the duration, a track filter the track count, and so on;
/// a filter with no payload gives no clause.
pub proof fn lemma_album_clause_field(f: AlbumFilter)
    ensures
        album_clause(f) matches Some((field, _)) ==> (f.payload matches Some(p) && field
            == album_payload_field(p)),
{
}

/// An artist filter's clause is on the column its kind names.
pub proof fn lemma_artist_clause_field(f: ArtistFilter)
    ensures
        artist_clause(f) matches Some((field, _)) ==> (f.payload matches Some(p)
            && artist_payload_field(p) == Some(field)),
{
}

/// A mix filter's clause is on the column its kind names.
pub proof fn lemma_mix_clause_field(f: MixFilter)
    ensures
        mix_clause(f) matches Some((field, _)) ==> (f.payload matches Some(p) && mix_payload_field(p)
            == Some(field)),
{
}

/// A remote mix filter's clause is on the column its kind names.
pub proof fn lemma_remote_mix_clause_field(f: RemoteMixFilter)
    ensures
        remote_mix_clause(f) matches Some((field, _)) ==> (f.payload matches Some(p) && field
            == remote_mix_payload_field(p)),
{
}

/// Every clause that a list of album filters gives is on the column named
/// by the kind of one of the filters, and the clauses come in the order of
/// their filters: clause `k` comes from a filter at or after position `k`.
pub proof fn lemma_album_clauses_fields(fs: Seq<AlbumFilter>)
    ensures
        album_clauses(fs).len() <= fs.len(),
        forall|k: int|
            0 <= k < album_clauses(fs).len() ==> exists|j: int|
                k <= j < fs.len() && (#[trigger] fs[j]).payload is Some
                    && (#[trigger] album_clauses(fs)[k]).0 == album_payload_field(fs[j].payload.unwrap()),
    decreases fs.len(),
{
    if fs.len() > 0 {
        let init = fs.drop_last();
        lemma_album_clauses_fields(init);
        let a = album_clauses(init);
        let c = opt_seq(album_clause(fs.last()));
        assert(album_clauses(fs) == a + c);
        assert forall|k: int| 0 <= k < album_clauses(fs).len() implies exists|j: int|
            k <= j < fs.len() && (#[trigger] fs[j]).payload is Some
                && (#[trigger] album_clauses(fs)[k]).0 == album_payload_field(fs[j].payload.unwrap()) by {
            if k < a.len() {
                let j = choose|j: int|
                    k <= j < init.len() && (#[trigger] init[j]).payload is Some
                        && a[k].0 == album_payload_field(init[j].payload.unwrap());
                assert(init[j] == fs[j]);
                assert(album_clauses(fs)[k] == a[k]);
            } else {
                lemma_album_clause_field(fs.last());
                assert(album_clauses(fs)[k] == c[k - a.len()]);
                assert(fs[fs.len() - 1] == fs.last());
            }
        }
    }
}

} // verus!
