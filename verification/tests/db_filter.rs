use chrono::TimeZone;
use qcm_backend::db_filter::{
    date_condition_to_expr, int_condition_to_expr, string_condition_to_expr,
    type_condition_to_expr, type_string_condition_to_expr, AlbumField, AlbumFilter,
    AlbumFilterPayload, ArtistField, ArtistFilter, ArtistFilterPayload, DateCondition,
    DateFilter, IdFilter, IntCondition, IntFilter, MixField, MixFilter, MixFilterPayload, Pred,
    RemoteMixField, RemoteMixFilter, RemoteMixFilterPayload, Select, SelectQcmMsgFilters,
    SqlValue, StringCondition, StringFilter, Test, TypeCondition, TypeFilter, TypeStringFilter,
    YearFilter,
};

const Y2020: i64 = 1_577_836_800_000;
const Y2021: i64 = 1_609_459_200_000;

fn one(t: Test) -> Option<Pred> {
    Some(Pred::One(t))
}

#[test]
fn int_conditions() {
    let v = || SqlValue::Int(3);
    assert_eq!(int_condition_to_expr(IntCondition::Equal, 3), one(Test::Eq(v())));
    assert_eq!(int_condition_to_expr(IntCondition::EqualNot, 3), one(Test::Ne(v())));
    assert_eq!(int_condition_to_expr(IntCondition::Greater, 3), one(Test::Gt(v())));
    assert_eq!(int_condition_to_expr(IntCondition::GreaterEqual, 3), one(Test::Ge(v())));
    assert_eq!(int_condition_to_expr(IntCondition::Less, 3), one(Test::Lt(v())));
    assert_eq!(int_condition_to_expr(IntCondition::LessEqual, 3), one(Test::Le(v())));
    assert_eq!(int_condition_to_expr(IntCondition::Unspecified, 3), None);
}

#[test]
fn string_conditions() {
    assert_eq!(
        string_condition_to_expr(StringCondition::Contains, "ab"),
        one(Test::Like("%ab%".to_string()))
    );
    assert_eq!(
        string_condition_to_expr(StringCondition::ContainsNot, ""),
        one(Test::NotLike("%%".to_string()))
    );
    assert_eq!(
        string_condition_to_expr(StringCondition::Is, "x"),
        one(Test::Eq(SqlValue::Text("x".to_string())))
    );
    assert_eq!(
        string_condition_to_expr(StringCondition::IsNot, "x"),
        one(Test::Ne(SqlValue::Text("x".to_string())))
    );
    assert_eq!(string_condition_to_expr(StringCondition::Unspecified, "x"), None);
}

#[test]
fn date_and_type_conditions() {
    assert_eq!(date_condition_to_expr(DateCondition::After, 5), one(Test::Ge(SqlValue::Time(5))));
    assert_eq!(date_condition_to_expr(DateCondition::Before, 5), one(Test::Le(SqlValue::Time(5))));
    assert_eq!(date_condition_to_expr(DateCondition::Null, 5), one(Test::IsNull));
    assert_eq!(date_condition_to_expr(DateCondition::NotNull, 5), one(Test::IsNotNull));
    assert_eq!(date_condition_to_expr(DateCondition::Unspecified, 5), None);
    assert_eq!(type_condition_to_expr(TypeCondition::Is, 2), one(Test::Eq(SqlValue::Int(2))));
    assert_eq!(type_condition_to_expr(TypeCondition::IsNot, 2), one(Test::Ne(SqlValue::Int(2))));
    assert_eq!(type_condition_to_expr(TypeCondition::Unspecified, 2), None);
    assert_eq!(
        type_string_condition_to_expr(TypeCondition::Is, "daily"),
        one(Test::Eq(SqlValue::Text("daily".to_string())))
    );
    assert_eq!(type_string_condition_to_expr(TypeCondition::Unspecified, "daily"), None);
}

#[test]
fn year_filter_turns_years_into_instants() {
    let y = |condition| YearFilter { condition, value: 2020 };
    assert_eq!(
        y(IntCondition::Equal).get_expr(),
        Some(Pred::Both(Test::Ge(SqlValue::Time(Y2020)), Test::Lt(SqlValue::Time(Y2021))))
    );
    assert_eq!(
        y(IntCondition::EqualNot).get_expr(),
        Some(Pred::Both(Test::Lt(SqlValue::Time(Y2020)), Test::Gt(SqlValue::TimeText(Y2021))))
    );
    assert_eq!(y(IntCondition::Greater).get_expr(), one(Test::Gt(SqlValue::Time(Y2020))));
    assert_eq!(y(IntCondition::GreaterEqual).get_expr(), one(Test::Ge(SqlValue::Time(Y2020))));
    assert_eq!(y(IntCondition::Less).get_expr(), one(Test::Lt(SqlValue::Time(Y2020))));
    assert_eq!(y(IntCondition::LessEqual).get_expr(), one(Test::Le(SqlValue::Time(Y2020))));
    assert_eq!(y(IntCondition::Unspecified).get_expr(), None);
    assert_eq!(
        YearFilter { condition: IntCondition::Greater, value: 1970 }.get_expr(),
        one(Test::Gt(SqlValue::Time(0)))
    );
}

#[test]
fn album_filters_become_clauses_in_order() {
    let filters = vec![
        AlbumFilter {
            payload: Some(AlbumFilterPayload::TitleFilter(StringFilter {
                condition: StringCondition::Contains,
                value: "love".to_string(),
            })),
        },
        AlbumFilter { payload: None },
        AlbumFilter {
            payload: Some(AlbumFilterPayload::TrackFilter(IntFilter {
                condition: IntCondition::Unspecified,
                value: 3,
            })),
        },
        AlbumFilter {
            payload: Some(AlbumFilterPayload::ArtistIdFilter(IdFilter { value: 9 })),
        },
        AlbumFilter {
            payload: Some(AlbumFilterPayload::YearFilter(YearFilter {
                condition: IntCondition::GreaterEqual,
                value: 2020,
            })),
        },
        AlbumFilter {
            payload: Some(AlbumFilterPayload::LastPlayedAtFilter(DateFilter {
                condition: DateCondition::NotNull,
                value: 0,
            })),
        },
        AlbumFilter {
            payload: Some(AlbumFilterPayload::TypeFilter(TypeFilter {
                condition: TypeCondition::IsNot,
                value: 1,
            })),
        },
    ];
    let s = Select::<AlbumField>::new().qcm_filters(&filters);
    assert_eq!(
        s.clauses,
        vec![
            (AlbumField::Name, Pred::One(Test::Like("%love%".to_string()))),
            (AlbumField::SongArtistId, Pred::One(Test::Eq(SqlValue::Int(9)))),
            (AlbumField::PublishTime, Pred::One(Test::Ge(SqlValue::Time(Y2020)))),
            (AlbumField::LastPlayedAt, Pred::One(Test::IsNotNull)),
            (AlbumField::Type, Pred::One(Test::Ne(SqlValue::Int(1)))),
        ]
    );
}

#[test]
fn filters_in_two_batches_equal_one_batch() {
    let a = vec![AlbumFilter {
        payload: Some(AlbumFilterPayload::DurationFilter(IntFilter {
            condition: IntCondition::Less,
            value: 300,
        })),
    }];
    let b = vec![AlbumFilter {
        payload: Some(AlbumFilterPayload::DiscCountFilter(IntFilter {
            condition: IntCondition::Equal,
            value: 2,
        })),
    }];
    let mut ab = a.clone();
    ab.extend(b.clone());
    let twice = Select::<AlbumField>::new().qcm_filters(&a).qcm_filters(&b);
    let once = Select::<AlbumField>::new().qcm_filters(&ab);
    assert_eq!(twice, once);
    assert_eq!(once.clauses.len(), 2);
}

#[test]
fn artist_mix_and_remote_mix_filters() {
    let s = Select::<ArtistField>::new().qcm_filters(&[
        ArtistFilter {
            payload: Some(ArtistFilterPayload::AlbumTitleFilter(StringFilter {
                condition: StringCondition::Is,
                value: "X".to_string(),
            })),
        },
        ArtistFilter { payload: Some(ArtistFilterPayload::Other) },
    ]);
    assert_eq!(
        s.clauses,
        vec![(ArtistField::AlbumTitle, Pred::One(Test::Eq(SqlValue::Text("X".to_string()))))]
    );
    let s = Select::<MixField>::new().qcm_filters(&[MixFilter {
        payload: Some(MixFilterPayload::AddedDateFilter(DateFilter {
            condition: DateCondition::After,
            value: 10,
        })),
    }]);
    assert_eq!(s.clauses, vec![(MixField::AddedAt, Pred::One(Test::Ge(SqlValue::Time(10))))]);
    let s = Select::<RemoteMixField>::new().qcm_filters(&[RemoteMixFilter {
        payload: Some(RemoteMixFilterPayload::TypeFilter(TypeStringFilter {
            condition: TypeCondition::Is,
            value: "radio".to_string(),
        })),
    }]);
    assert_eq!(
        s.clauses,
        vec![(RemoteMixField::MixType, Pred::One(Test::Eq(SqlValue::Text("radio".to_string()))))]
    );
}

#[test]
fn year_starts_agree_with_chrono() {
    for y in [-262143, -4713, -1, 0, 1, 1600, 1900, 1969, 1970, 2000, 2024, 2100, 262141] {
        let ms = chrono::Utc.with_ymd_and_hms(y, 1, 1, 0, 0, 0).unwrap().timestamp_millis();
        assert_eq!(
            YearFilter { condition: IntCondition::GreaterEqual, value: y }.get_expr(),
            one(Test::Ge(SqlValue::Time(ms)))
        );
    }
}
