//! The reviewed record and reservation rules of each archive.

use super::{CategoryPath, CategorySource, RecordRule, ReservationRule, RuleScope};
use vstd::prelude::*;

verus! {

/// The reviewed record rules of the `im` archive.
pub open spec fn im_record_rules() -> Seq<RecordRule> {
    seq![
        RecordRule::spec_verified(RuleScope::IdRange { start: 0, end: 5 }, CategoryPath(&["지도", "국가 선택 지도"]), CategorySource::Custom),
    ]
}

/// The reviewed record rules of the `im` archive.
pub fn im_record_rule_table() -> (rules: Vec<RecordRule>)
    ensures
        rules@ == im_record_rules(),
{
    vec![
        RecordRule::verified(RuleScope::IdRange { start: 0, end: 5 }, CategoryPath(&["지도", "국가 선택 지도"]), CategorySource::Custom),
    ]
}

/// The reviewed record rules of the `sa` archive.
pub open spec fn sa_record_rules() -> Seq<RecordRule> {
    seq![
        RecordRule::spec_verified(RuleScope::Group(0), CategoryPath(&["인물", "부관 스킬"]), CategorySource::InGame),
        RecordRule::spec_verified(RuleScope::BlockRange { start: 829, end: 829 }, CategoryPath(&["인물", "부관 스킬"]), CategorySource::InGame),
        RecordRule::spec_verified(RuleScope::BlockRange { start: 830, end: 909 }, CategoryPath(&["UI 아이콘", "감정표현"]), CategorySource::Custom),
        RecordRule::spec_verified(RuleScope::BlockRange { start: 910, end: 910 }, CategoryPath(&["인물", "부관 스킬"]), CategorySource::InGame),
        RecordRule::spec_verified(RuleScope::BlockRange { start: 911, end: 931 }, CategoryPath(&["선박", "선박 그레이드 보너스"]), CategorySource::InGame),
        RecordRule::spec_verified(RuleScope::BlockRange { start: 932, end: 938 }, CategoryPath(&["인물", "부관 스킬"]), CategorySource::InGame),
        RecordRule::spec_verified(RuleScope::BlockRange { start: 939, end: 941 }, CategoryPath(&["선박", "선박 그레이드 보너스"]), CategorySource::InGame),
        RecordRule::spec_verified(RuleScope::BlockRange { start: 942, end: 943 }, CategoryPath(&["UI 아이콘", "연금술"]), CategorySource::Custom),
    ]
}

/// The reviewed record rules of the `sa` archive.
pub fn sa_record_rule_table() -> (rules: Vec<RecordRule>)
    ensures
        rules@ == sa_record_rules(),
{
    vec![
        RecordRule::verified(RuleScope::Group(0), CategoryPath(&["인물", "부관 스킬"]), CategorySource::InGame),
        RecordRule::verified(RuleScope::BlockRange { start: 829, end: 829 }, CategoryPath(&["인물", "부관 스킬"]), CategorySource::InGame),
        RecordRule::verified(RuleScope::BlockRange { start: 830, end: 909 }, CategoryPath(&["UI 아이콘", "감정표현"]), CategorySource::Custom),
        RecordRule::verified(RuleScope::BlockRange { start: 910, end: 910 }, CategoryPath(&["인물", "부관 스킬"]), CategorySource::InGame),
        RecordRule::verified(RuleScope::BlockRange { start: 911, end: 931 }, CategoryPath(&["선박", "선박 그레이드 보너스"]), CategorySource::InGame),
        RecordRule::verified(RuleScope::BlockRange { start: 932, end: 938 }, CategoryPath(&["인물", "부관 스킬"]), CategorySource::InGame),
        RecordRule::verified(RuleScope::BlockRange { start: 939, end: 941 }, CategoryPath(&["선박", "선박 그레이드 보너스"]), CategorySource::InGame),
        RecordRule::verified(RuleScope::BlockRange { start: 942, end: 943 }, CategoryPath(&["UI 아이콘", "연금술"]), CategorySource::Custom),
    ]
}

/// The reviewed record rules of the `sb` archive.
pub open spec fn sb_record_rules() -> Seq<RecordRule> {
    seq![
        RecordRule::spec_verified(RuleScope::IdRange { start: 0, end: 99_999 }, CategoryPath(&["장비", "방어구", "몸"]), CategorySource::InGame),
        RecordRule::spec_verified(RuleScope::IdRange { start: 100_000, end: 199_999 }, CategoryPath(&["장비", "방어구", "머리"]), CategorySource::InGame),
        RecordRule::spec_verified(RuleScope::IdRange { start: 200_000, end: 299_999 }, CategoryPath(&["장비", "방어구", "다리"]), CategorySource::InGame),
        RecordRule::spec_verified(RuleScope::IdRange { start: 300_000, end: 399_999 }, CategoryPath(&["장비", "방어구", "팔"]), CategorySource::InGame),
        RecordRule::spec_verified(RuleScope::IdRange { start: 400_000, end: 499_999 }, CategoryPath(&["장비", "무기"]), CategorySource::InGame),
        RecordRule::spec_verified(RuleScope::IdRange { start: 500_000, end: 599_999 }, CategoryPath(&["장비", "도구"]), CategorySource::InGame),
        RecordRule::spec_verified(RuleScope::IdRange { start: 600_000, end: 699_999 }, CategoryPath(&["선박", "선박 장비", "보조돛"]), CategorySource::InGame),
        RecordRule::spec_verified(RuleScope::IdRange { start: 700_000, end: 799_999 }, CategoryPath(&["선박", "선박 장비", "대포"]), CategorySource::InGame),
        RecordRule::spec_verified(RuleScope::IdRange { start: 800_000, end: 899_999 }, CategoryPath(&["선박", "선박 장비", "추가장갑"]), CategorySource::InGame),
        RecordRule::spec_verified(RuleScope::IdRange { start: 900_000, end: 999_999 }, CategoryPath(&["선박", "선박 장비", "특수장비"]), CategorySource::InGame),
        RecordRule::spec_verified(RuleScope::IdRange { start: 1_000_000, end: 1_099_999 }, CategoryPath(&["선박", "선박 장비", "선수상"]), CategorySource::InGame),
        RecordRule::spec_verified(RuleScope::IdRange { start: 1_100_000, end: 1_199_999 }, CategoryPath(&["선박", "선박 장비", "문장"]), CategorySource::InGame),
        RecordRule::spec_explicit_unknown(RuleScope::ExactId(1_200_001)),
        RecordRule::spec_explicit_unknown(RuleScope::ExactId(1_200_101)),
        RecordRule::spec_temporary(RuleScope::ExactId(1_300_001), CategoryPath(&["미분류", "SB 특수 아이콘"])),
        RecordRule::spec_temporary(RuleScope::ExactId(1_300_100), CategoryPath(&["미분류", "SB 특수 아이콘"])),
        RecordRule::spec_temporary(RuleScope::IdRange { start: 1_390_001, end: 1_390_015 }, CategoryPath(&["미분류", "SB 특수 아이콘"])),
        RecordRule::spec_verified(RuleScope::ExactId(1_400_100), CategoryPath(&["선박", "선박 물자"]), CategorySource::Custom),
        RecordRule::spec_verified(RuleScope::ExactId(1_400_200), CategoryPath(&["선박", "선박 물자"]), CategorySource::Custom),
        RecordRule::spec_verified(RuleScope::ExactId(1_400_300), CategoryPath(&["선박", "선박 물자"]), CategorySource::Custom),
        RecordRule::spec_verified(RuleScope::ExactId(1_400_400), CategoryPath(&["선박", "선박 물자"]), CategorySource::Custom),
        RecordRule::spec_verified(RuleScope::IdRange { start: 1_500_000, end: 1_599_999 }, CategoryPath(&["아이템", "소비품"]), CategorySource::InGame),
        RecordRule::spec_verified(RuleScope::IdRange { start: 1_700_000, end: 1_799_999 }, CategoryPath(&["아이템", "추천장"]), CategorySource::InGame),
        RecordRule::spec_verified(RuleScope::IdRange { start: 1_800_000, end: 1_899_999 }, CategoryPath(&["아이템", "레시피"]), CategorySource::InGame),
        RecordRule::spec_verified(RuleScope::IdRange { start: 1_900_000, end: 1_999_999 }, CategoryPath(&["아이템", "보물지도"]), CategorySource::InGame),
        RecordRule::spec_verified(RuleScope::IdRange { start: 2_000_000, end: 2_199_999 }, CategoryPath(&["아이템", "아이템 획득"]), CategorySource::Custom),
        RecordRule::spec_verified(RuleScope::IdRange { start: 2_200_000, end: 2_299_999 }, CategoryPath(&["선박", "선박 재료"]), CategorySource::InGame),
        RecordRule::spec_verified(RuleScope::IdRange { start: 2_300_000, end: 2_399_999 }, CategoryPath(&["아이템", "장식품"]), CategorySource::InGame),
        RecordRule::spec_verified(RuleScope::IdRange { start: 2_400_000, end: 2_499_999 }, CategoryPath(&["아이템", "소비품", "애완동물"]), CategorySource::InGame),
        RecordRule::spec_verified(RuleScope::IdRange { start: 2_500_000, end: 2_599_999 }, CategoryPath(&["선박", "선박 데코"]), CategorySource::InGame),
        RecordRule::spec_verified(RuleScope::IdRange { start: 2_600_001, end: 2_602_160 }, CategoryPath(&["선박", "선원 장비"]), CategorySource::InGame),
        RecordRule::spec_explicit_unknown(RuleScope::ExactId(2_602_161)),
    ]
}

/// The reviewed record rules of the `sb` archive.
pub fn sb_record_rule_table() -> (rules: Vec<RecordRule>)
    ensures
        rules@ == sb_record_rules(),
{
    vec![
        RecordRule::verified(RuleScope::IdRange { start: 0, end: 99_999 }, CategoryPath(&["장비", "방어구", "몸"]), CategorySource::InGame),
        RecordRule::verified(RuleScope::IdRange { start: 100_000, end: 199_999 }, CategoryPath(&["장비", "방어구", "머리"]), CategorySource::InGame),
        RecordRule::verified(RuleScope::IdRange { start: 200_000, end: 299_999 }, CategoryPath(&["장비", "방어구", "다리"]), CategorySource::InGame),
        RecordRule::verified(RuleScope::IdRange { start: 300_000, end: 399_999 }, CategoryPath(&["장비", "방어구", "팔"]), CategorySource::InGame),
        RecordRule::verified(RuleScope::IdRange { start: 400_000, end: 499_999 }, CategoryPath(&["장비", "무기"]), CategorySource::InGame),
        RecordRule::verified(RuleScope::IdRange { start: 500_000, end: 599_999 }, CategoryPath(&["장비", "도구"]), CategorySource::InGame),
        RecordRule::verified(RuleScope::IdRange { start: 600_000, end: 699_999 }, CategoryPath(&["선박", "선박 장비", "보조돛"]), CategorySource::InGame),
        RecordRule::verified(RuleScope::IdRange { start: 700_000, end: 799_999 }, CategoryPath(&["선박", "선박 장비", "대포"]), CategorySource::InGame),
        RecordRule::verified(RuleScope::IdRange { start: 800_000, end: 899_999 }, CategoryPath(&["선박", "선박 장비", "추가장갑"]), CategorySource::InGame),
        RecordRule::verified(RuleScope::IdRange { start: 900_000, end: 999_999 }, CategoryPath(&["선박", "선박 장비", "특수장비"]), CategorySource::InGame),
        RecordRule::verified(RuleScope::IdRange { start: 1_000_000, end: 1_099_999 }, CategoryPath(&["선박", "선박 장비", "선수상"]), CategorySource::InGame),
        RecordRule::verified(RuleScope::IdRange { start: 1_100_000, end: 1_199_999 }, CategoryPath(&["선박", "선박 장비", "문장"]), CategorySource::InGame),
        RecordRule::explicit_unknown(RuleScope::ExactId(1_200_001)),
        RecordRule::explicit_unknown(RuleScope::ExactId(1_200_101)),
        RecordRule::temporary(RuleScope::ExactId(1_300_001), CategoryPath(&["미분류", "SB 특수 아이콘"])),
        RecordRule::temporary(RuleScope::ExactId(1_300_100), CategoryPath(&["미분류", "SB 특수 아이콘"])),
        RecordRule::temporary(RuleScope::IdRange { start: 1_390_001, end: 1_390_015 }, CategoryPath(&["미분류", "SB 특수 아이콘"])),
        RecordRule::verified(RuleScope::ExactId(1_400_100), CategoryPath(&["선박", "선박 물자"]), CategorySource::Custom),
        RecordRule::verified(RuleScope::ExactId(1_400_200), CategoryPath(&["선박", "선박 물자"]), CategorySource::Custom),
        RecordRule::verified(RuleScope::ExactId(1_400_300), CategoryPath(&["선박", "선박 물자"]), CategorySource::Custom),
        RecordRule::verified(RuleScope::ExactId(1_400_400), CategoryPath(&["선박", "선박 물자"]), CategorySource::Custom),
        RecordRule::verified(RuleScope::IdRange { start: 1_500_000, end: 1_599_999 }, CategoryPath(&["아이템", "소비품"]), CategorySource::InGame),
        RecordRule::verified(RuleScope::IdRange { start: 1_700_000, end: 1_799_999 }, CategoryPath(&["아이템", "추천장"]), CategorySource::InGame),
        RecordRule::verified(RuleScope::IdRange { start: 1_800_000, end: 1_899_999 }, CategoryPath(&["아이템", "레시피"]), CategorySource::InGame),
        RecordRule::verified(RuleScope::IdRange { start: 1_900_000, end: 1_999_999 }, CategoryPath(&["아이템", "보물지도"]), CategorySource::InGame),
        RecordRule::verified(RuleScope::IdRange { start: 2_000_000, end: 2_199_999 }, CategoryPath(&["아이템", "아이템 획득"]), CategorySource::Custom),
        RecordRule::verified(RuleScope::IdRange { start: 2_200_000, end: 2_299_999 }, CategoryPath(&["선박", "선박 재료"]), CategorySource::InGame),
        RecordRule::verified(RuleScope::IdRange { start: 2_300_000, end: 2_399_999 }, CategoryPath(&["아이템", "장식품"]), CategorySource::InGame),
        RecordRule::verified(RuleScope::IdRange { start: 2_400_000, end: 2_499_999 }, CategoryPath(&["아이템", "소비품", "애완동물"]), CategorySource::InGame),
        RecordRule::verified(RuleScope::IdRange { start: 2_500_000, end: 2_599_999 }, CategoryPath(&["선박", "선박 데코"]), CategorySource::InGame),
        RecordRule::verified(RuleScope::IdRange { start: 2_600_001, end: 2_602_160 }, CategoryPath(&["선박", "선원 장비"]), CategorySource::InGame),
        RecordRule::explicit_unknown(RuleScope::ExactId(2_602_161)),
    ]
}

/// The verified reservation bands of the `sb` archive.
pub open spec fn sb_reservation_rules() -> Seq<ReservationRule> {
    seq![
        ReservationRule::spec_new(0, 99_999, CategoryPath(&["장비", "방어구", "몸"]), CategorySource::InGame),
        ReservationRule::spec_new(100_000, 199_999, CategoryPath(&["장비", "방어구", "머리"]), CategorySource::InGame),
        ReservationRule::spec_new(200_000, 299_999, CategoryPath(&["장비", "방어구", "다리"]), CategorySource::InGame),
        ReservationRule::spec_new(300_000, 399_999, CategoryPath(&["장비", "방어구", "팔"]), CategorySource::InGame),
        ReservationRule::spec_new(400_000, 499_999, CategoryPath(&["장비", "무기"]), CategorySource::InGame),
        ReservationRule::spec_new(500_000, 599_999, CategoryPath(&["장비", "도구"]), CategorySource::InGame),
        ReservationRule::spec_new(600_000, 699_999, CategoryPath(&["선박", "선박 장비", "보조돛"]), CategorySource::InGame),
        ReservationRule::spec_new(700_000, 799_999, CategoryPath(&["선박", "선박 장비", "대포"]), CategorySource::InGame),
        ReservationRule::spec_new(800_000, 899_999, CategoryPath(&["선박", "선박 장비", "추가장갑"]), CategorySource::InGame),
        ReservationRule::spec_new(900_000, 999_999, CategoryPath(&["선박", "선박 장비", "특수장비"]), CategorySource::InGame),
        ReservationRule::spec_new(1_000_000, 1_099_999, CategoryPath(&["선박", "선박 장비", "선수상"]), CategorySource::InGame),
        ReservationRule::spec_new(1_100_000, 1_199_999, CategoryPath(&["선박", "선박 장비", "문장"]), CategorySource::InGame),
        ReservationRule::spec_new(1_500_000, 1_599_999, CategoryPath(&["아이템", "소비품"]), CategorySource::InGame),
        ReservationRule::spec_new(1_700_000, 1_799_999, CategoryPath(&["아이템", "추천장"]), CategorySource::InGame),
        ReservationRule::spec_new(1_800_000, 1_899_999, CategoryPath(&["아이템", "레시피"]), CategorySource::InGame),
        ReservationRule::spec_new(1_900_000, 1_999_999, CategoryPath(&["아이템", "보물지도"]), CategorySource::InGame),
        ReservationRule::spec_new(2_200_000, 2_299_999, CategoryPath(&["선박", "선박 재료"]), CategorySource::InGame),
        ReservationRule::spec_new(2_300_000, 2_399_999, CategoryPath(&["아이템", "장식품"]), CategorySource::InGame),
        ReservationRule::spec_new(2_400_000, 2_499_999, CategoryPath(&["아이템", "소비품", "애완동물"]), CategorySource::InGame),
        ReservationRule::spec_new(2_500_000, 2_599_999, CategoryPath(&["선박", "선박 데코"]), CategorySource::InGame),
        ReservationRule::spec_new(2_600_000, 2_699_999, CategoryPath(&["선박", "선원 장비"]), CategorySource::InGame),
    ]
}

/// The verified reservation bands of the `sb` archive.
pub fn sb_reservation_rule_table() -> (rules: Vec<ReservationRule>)
    ensures
        rules@ == sb_reservation_rules(),
{
    vec![
        ReservationRule::new(0, 99_999, CategoryPath(&["장비", "방어구", "몸"]), CategorySource::InGame),
        ReservationRule::new(100_000, 199_999, CategoryPath(&["장비", "방어구", "머리"]), CategorySource::InGame),
        ReservationRule::new(200_000, 299_999, CategoryPath(&["장비", "방어구", "다리"]), CategorySource::InGame),
        ReservationRule::new(300_000, 399_999, CategoryPath(&["장비", "방어구", "팔"]), CategorySource::InGame),
        ReservationRule::new(400_000, 499_999, CategoryPath(&["장비", "무기"]), CategorySource::InGame),
        ReservationRule::new(500_000, 599_999, CategoryPath(&["장비", "도구"]), CategorySource::InGame),
        ReservationRule::new(600_000, 699_999, CategoryPath(&["선박", "선박 장비", "보조돛"]), CategorySource::InGame),
        ReservationRule::new(700_000, 799_999, CategoryPath(&["선박", "선박 장비", "대포"]), CategorySource::InGame),
        ReservationRule::new(800_000, 899_999, CategoryPath(&["선박", "선박 장비", "추가장갑"]), CategorySource::InGame),
        ReservationRule::new(900_000, 999_999, CategoryPath(&["선박", "선박 장비", "특수장비"]), CategorySource::InGame),
        ReservationRule::new(1_000_000, 1_099_999, CategoryPath(&["선박", "선박 장비", "선수상"]), CategorySource::InGame),
        ReservationRule::new(1_100_000, 1_199_999, CategoryPath(&["선박", "선박 장비", "문장"]), CategorySource::InGame),
        ReservationRule::new(1_500_000, 1_599_999, CategoryPath(&["아이템", "소비품"]), CategorySource::InGame),
        ReservationRule::new(1_700_000, 1_799_999, CategoryPath(&["아이템", "추천장"]), CategorySource::InGame),
        ReservationRule::new(1_800_000, 1_899_999, CategoryPath(&["아이템", "레시피"]), CategorySource::InGame),
        ReservationRule::new(1_900_000, 1_999_999, CategoryPath(&["아이템", "보물지도"]), CategorySource::InGame),
        ReservationRule::new(2_200_000, 2_299_999, CategoryPath(&["선박", "선박 재료"]), CategorySource::InGame),
        ReservationRule::new(2_300_000, 2_399_999, CategoryPath(&["아이템", "장식품"]), CategorySource::InGame),
        ReservationRule::new(2_400_000, 2_499_999, CategoryPath(&["아이템", "소비품", "애완동물"]), CategorySource::InGame),
        ReservationRule::new(2_500_000, 2_599_999, CategoryPath(&["선박", "선박 데코"]), CategorySource::InGame),
        ReservationRule::new(2_600_000, 2_699_999, CategoryPath(&["선박", "선원 장비"]), CategorySource::InGame),
    ]
}

/// The reviewed record rules of the `sc` archive.
pub open spec fn sc_record_rules() -> Seq<RecordRule> {
    seq![
        RecordRule::spec_verified(RuleScope::BlockRange { start: 0, end: 682 }, CategoryPath(&["교역품"]), CategorySource::InGame),
        RecordRule::spec_verified(RuleScope::BlockRange { start: 683, end: 926 }, CategoryPath(&["선박"]), CategorySource::InGame),
        RecordRule::spec_verified(RuleScope::BlockRange { start: 927, end: 997 }, CategoryPath(&["선박", "선박 재료", "재질"]), CategorySource::InGame),
        RecordRule::spec_verified(RuleScope::BlockRange { start: 998, end: 1_027 }, CategoryPath(&["도시", "도시 내 건물"]), CategorySource::Custom),
        RecordRule::spec_verified(RuleScope::BlockRange { start: 1_028, end: 1_134 }, CategoryPath(&["선박", "돛 무늬"]), CategorySource::InGame),
        RecordRule::spec_verified(RuleScope::BlockRange { start: 1_135, end: 1_269 }, CategoryPath(&["UI 아이콘", "주점 메뉴"]), CategorySource::Custom),
        RecordRule::spec_verified(RuleScope::BlockRange { start: 1_270, end: 1_322 }, CategoryPath(&["UI 아이콘", "카드"]), CategorySource::Custom),
        RecordRule::spec_verified(RuleScope::BlockRange { start: 1_323, end: 1_336 }, CategoryPath(&["이벤트"]), CategorySource::Custom),
        RecordRule::spec_verified(RuleScope::BlockRange { start: 1_337, end: 1_472 }, CategoryPath(&["인물", "부관 아이콘"]), CategorySource::Custom),
        RecordRule::spec_verified(RuleScope::BlockRange { start: 1_473, end: 1_494 }, CategoryPath(&["UI 아이콘", "타로"]), CategorySource::Custom),
        RecordRule::spec_verified(RuleScope::BlockRange { start: 1_495, end: 1_506 }, CategoryPath(&["아팔타멘토"]), CategorySource::InGame),
        RecordRule::spec_verified(RuleScope::BlockRange { start: 1_507, end: 4_433 }, CategoryPath(&["발견물", "1", "리스트 이미지 (48×48)"]), CategorySource::Custom),
        RecordRule::spec_verified(RuleScope::BlockRange { start: 4_434, end: 4_457 }, CategoryPath(&["아팔타멘토", "집사"]), CategorySource::InGame),
        RecordRule::spec_verified(RuleScope::BlockRange { start: 4_476, end: 4_489 }, CategoryPath(&["개인농장"]), CategorySource::InGame),
        RecordRule::spec_verified(RuleScope::BlockRange { start: 4_490, end: 4_497 }, CategoryPath(&["UI 아이콘", "생산"]), CategorySource::Custom),
        RecordRule::spec_verified(RuleScope::BlockRange { start: 4_498, end: 4_531 }, CategoryPath(&["UI 아이콘", "테크닉"]), CategorySource::Custom),
        RecordRule::spec_verified(RuleScope::BlockRange { start: 4_532, end: 4_655 }, CategoryPath(&["개척도시"]), CategorySource::InGame),
        RecordRule::spec_verified(RuleScope::BlockRange { start: 4_656, end: 4_919 }, CategoryPath(&["대학·학술협회·부관학교"]), CategorySource::Custom),
        RecordRule::spec_explicit_unknown(RuleScope::ExactBlock(4_920)),
        RecordRule::spec_verified(RuleScope::BlockRange { start: 4_921, end: 5_114 }, CategoryPath(&["인물", "미분류 초상화"]), CategorySource::Custom),
        RecordRule::spec_verified(RuleScope::BlockRange { start: 5_115, end: 5_232 }, CategoryPath(&["기타"]), CategorySource::Custom),
        RecordRule::spec_verified(RuleScope::BlockRange { start: 5_233, end: 5_265 }, CategoryPath(&["발견물", "2", "리스트 이미지 (48×48)"]), CategorySource::Custom),
        RecordRule::spec_verified(RuleScope::BlockRange { start: 5_266, end: 5_310 }, CategoryPath(&["인물", "NPC 초상화"]), CategorySource::Custom),
        RecordRule::spec_verified(RuleScope::BlockRange { start: 5_327, end: 5_335 }, CategoryPath(&["인물", "미분류 초상화"]), CategorySource::Custom),
        RecordRule::spec_verified(RuleScope::BlockRange { start: 5_336, end: 5_592 }, CategoryPath(&["기타"]), CategorySource::Custom),
        RecordRule::spec_verified(RuleScope::BlockRange { start: 5_593, end: 5_620 }, CategoryPath(&["잠재능력"]), CategorySource::InGame),
        RecordRule::spec_verified(RuleScope::BlockRange { start: 5_621, end: 5_940 }, CategoryPath(&["기타"]), CategorySource::Custom),
    ]
}

/// The reviewed record rules of the `sc` archive.
pub fn sc_record_rule_table() -> (rules: Vec<RecordRule>)
    ensures
        rules@ == sc_record_rules(),
{
    vec![
        RecordRule::verified(RuleScope::BlockRange { start: 0, end: 682 }, CategoryPath(&["교역품"]), CategorySource::InGame),
        RecordRule::verified(RuleScope::BlockRange { start: 683, end: 926 }, CategoryPath(&["선박"]), CategorySource::InGame),
        RecordRule::verified(RuleScope::BlockRange { start: 927, end: 997 }, CategoryPath(&["선박", "선박 재료", "재질"]), CategorySource::InGame),
        RecordRule::verified(RuleScope::BlockRange { start: 998, end: 1_027 }, CategoryPath(&["도시", "도시 내 건물"]), CategorySource::Custom),
        RecordRule::verified(RuleScope::BlockRange { start: 1_028, end: 1_134 }, CategoryPath(&["선박", "돛 무늬"]), CategorySource::InGame),
        RecordRule::verified(RuleScope::BlockRange { start: 1_135, end: 1_269 }, CategoryPath(&["UI 아이콘", "주점 메뉴"]), CategorySource::Custom),
        RecordRule::verified(RuleScope::BlockRange { start: 1_270, end: 1_322 }, CategoryPath(&["UI 아이콘", "카드"]), CategorySource::Custom),
        RecordRule::verified(RuleScope::BlockRange { start: 1_323, end: 1_336 }, CategoryPath(&["이벤트"]), CategorySource::Custom),
        RecordRule::verified(RuleScope::BlockRange { start: 1_337, end: 1_472 }, CategoryPath(&["인물", "부관 아이콘"]), CategorySource::Custom),
        RecordRule::verified(RuleScope::BlockRange { start: 1_473, end: 1_494 }, CategoryPath(&["UI 아이콘", "타로"]), CategorySource::Custom),
        RecordRule::verified(RuleScope::BlockRange { start: 1_495, end: 1_506 }, CategoryPath(&["아팔타멘토"]), CategorySource::InGame),
        RecordRule::verified(RuleScope::BlockRange { start: 1_507, end: 4_433 }, CategoryPath(&["발견물", "1", "리스트 이미지 (48×48)"]), CategorySource::Custom),
        RecordRule::verified(RuleScope::BlockRange { start: 4_434, end: 4_457 }, CategoryPath(&["아팔타멘토", "집사"]), CategorySource::InGame),
        RecordRule::verified(RuleScope::BlockRange { start: 4_476, end: 4_489 }, CategoryPath(&["개인농장"]), CategorySource::InGame),
        RecordRule::verified(RuleScope::BlockRange { start: 4_490, end: 4_497 }, CategoryPath(&["UI 아이콘", "생산"]), CategorySource::Custom),
        RecordRule::verified(RuleScope::BlockRange { start: 4_498, end: 4_531 }, CategoryPath(&["UI 아이콘", "테크닉"]), CategorySource::Custom),
        RecordRule::verified(RuleScope::BlockRange { start: 4_532, end: 4_655 }, CategoryPath(&["개척도시"]), CategorySource::InGame),
        RecordRule::verified(RuleScope::BlockRange { start: 4_656, end: 4_919 }, CategoryPath(&["대학·학술협회·부관학교"]), CategorySource::Custom),
        RecordRule::explicit_unknown(RuleScope::ExactBlock(4_920)),
        RecordRule::verified(RuleScope::BlockRange { start: 4_921, end: 5_114 }, CategoryPath(&["인물", "미분류 초상화"]), CategorySource::Custom),
        RecordRule::verified(RuleScope::BlockRange { start: 5_115, end: 5_232 }, CategoryPath(&["기타"]), CategorySource::Custom),
        RecordRule::verified(RuleScope::BlockRange { start: 5_233, end: 5_265 }, CategoryPath(&["발견물", "2", "리스트 이미지 (48×48)"]), CategorySource::Custom),
        RecordRule::verified(RuleScope::BlockRange { start: 5_266, end: 5_310 }, CategoryPath(&["인물", "NPC 초상화"]), CategorySource::Custom),
        RecordRule::verified(RuleScope::BlockRange { start: 5_327, end: 5_335 }, CategoryPath(&["인물", "미분류 초상화"]), CategorySource::Custom),
        RecordRule::verified(RuleScope::BlockRange { start: 5_336, end: 5_592 }, CategoryPath(&["기타"]), CategorySource::Custom),
        RecordRule::verified(RuleScope::BlockRange { start: 5_593, end: 5_620 }, CategoryPath(&["잠재능력"]), CategorySource::InGame),
        RecordRule::verified(RuleScope::BlockRange { start: 5_621, end: 5_940 }, CategoryPath(&["기타"]), CategorySource::Custom),
    ]
}

/// The reviewed record rules of the `sd` archive.
pub open spec fn sd_record_rules() -> Seq<RecordRule> {
    seq![
        RecordRule::spec_verified(RuleScope::BlockRange { start: 0, end: 2_926 }, CategoryPath(&["발견물", "1", "획득 이미지 (128×128)"]), CategorySource::Custom),
        RecordRule::spec_verified(RuleScope::BlockRange { start: 3_071, end: 3_288 }, CategoryPath(&["전투"]), CategorySource::InGame),
        RecordRule::spec_verified(RuleScope::BlockRange { start: 3_289, end: 3_314 }, CategoryPath(&["입항허가", "획득 이미지 (128×128)"]), CategorySource::Custom),
        RecordRule::spec_verified(RuleScope::BlockRange { start: 3_315, end: 3_507 }, CategoryPath(&["도움말"]), CategorySource::InGame),
        RecordRule::spec_verified(RuleScope::BlockRange { start: 4_023, end: 4_026 }, CategoryPath(&["클라이언트", "스플래시 UI"]), CategorySource::Custom),
        RecordRule::spec_verified(RuleScope::BlockRange { start: 7_933, end: 8_718 }, CategoryPath(&["도움말"]), CategorySource::Custom),
        RecordRule::spec_verified(RuleScope::BlockRange { start: 8_842, end: 9_248 }, CategoryPath(&["지도", "세계지도"]), CategorySource::InGame),
        RecordRule::spec_verified(RuleScope::BlockRange { start: 9_291, end: 9_978 }, CategoryPath(&["지도", "필드 지도"]), CategorySource::InGame),
        RecordRule::spec_verified(RuleScope::BlockRange { start: 9_979, end: 10_011 }, CategoryPath(&["발견물", "2", "획득 이미지 (128×128)"]), CategorySource::Custom),
        RecordRule::spec_verified(RuleScope::BlockRange { start: 10_012, end: 10_155 }, CategoryPath(&["지도", "던전 지도"]), CategorySource::InGame),
        RecordRule::spec_verified(RuleScope::BlockRange { start: 10_156, end: 10_175 }, CategoryPath(&["가호"]), CategorySource::InGame),
        RecordRule::spec_verified(RuleScope::BlockRange { start: 10_176, end: 10_199 }, CategoryPath(&["이벤트"]), CategorySource::InGame),
        RecordRule::spec_verified(RuleScope::BlockRange { start: 10_200, end: 10_202 }, CategoryPath(&["인물", "미분류 초상화"]), CategorySource::Custom),
        RecordRule::spec_verified(RuleScope::BlockRange { start: 10_203, end: 10_242 }, CategoryPath(&["클라이언트", "플레이스홀더"]), CategorySource::Custom),
        RecordRule::spec_verified(RuleScope::BlockRange { start: 10_243, end: 10_271 }, CategoryPath(&["전승", "미발견 이미지 (128×128)"]), CategorySource::Custom),
        RecordRule::spec_verified(RuleScope::BlockRange { start: 10_272, end: 10_303 }, CategoryPath(&["인물", "구조 부관", "초상화"]), CategorySource::Custom),
        RecordRule::spec_verified(RuleScope::BlockRange { start: 10_304, end: 10_367 }, CategoryPath(&["인물", "구조 부관", "구조 이미지"]), CategorySource::Custom),
        RecordRule::spec_verified(RuleScope::BlockRange { start: 10_368, end: 10_395 }, CategoryPath(&["UI 이미지", "예지의 서", "표지"]), CategorySource::Custom),
        RecordRule::spec_verified(RuleScope::BlockRange { start: 10_396, end: 10_399 }, CategoryPath(&["UI 이미지", "예지의 서", "유산의 장", "레거시 테마 UI"]), CategorySource::Custom),
        RecordRule::spec_verified(RuleScope::BlockRange { start: 10_400, end: 10_418 }, CategoryPath(&["UI 이미지", "예지의 서", "유산의 장", "레거시 상세 UI"]), CategorySource::Custom),
        RecordRule::spec_verified(RuleScope::BlockRange { start: 10_439, end: 10_470 }, CategoryPath(&["UI 이미지", "별자리 조사", "천구도"]), CategorySource::Custom),
        RecordRule::spec_verified(RuleScope::BlockRange { start: 10_471, end: 10_543 }, CategoryPath(&["UI 이미지", "별자리 조사", "별자리선 표시"]), CategorySource::Custom),
        RecordRule::spec_verified(RuleScope::BlockRange { start: 10_544, end: 10_616 }, CategoryPath(&["UI 이미지", "별자리 조사", "별자리선과 그림 표시"]), CategorySource::Custom),
        RecordRule::spec_verified(RuleScope::BlockRange { start: 10_617, end: 10_800 }, CategoryPath(&["UI 이미지", "별자리 조사", "별자리 이미지"]), CategorySource::Custom),
        RecordRule::spec_verified(RuleScope::BlockRange { start: 10_801, end: 10_811 }, CategoryPath(&["인물", "미분류 초상화"]), CategorySource::Custom),
        RecordRule::spec_verified(RuleScope::BlockRange { start: 10_812, end: 10_821 }, CategoryPath(&["캐러밴", "낙타"]), CategorySource::Custom),
        RecordRule::spec_verified(RuleScope::BlockRange { start: 10_822, end: 10_830 }, CategoryPath(&["캐러밴", "대장 초상화"]), CategorySource::Custom),
    ]
}

/// The reviewed record rules of the `sd` archive.
pub fn sd_record_rule_table() -> (rules: Vec<RecordRule>)
    ensures
        rules@ == sd_record_rules(),
{
    vec![
        RecordRule::verified(RuleScope::BlockRange { start: 0, end: 2_926 }, CategoryPath(&["발견물", "1", "획득 이미지 (128×128)"]), CategorySource::Custom),
        RecordRule::verified(RuleScope::BlockRange { start: 3_071, end: 3_288 }, CategoryPath(&["전투"]), CategorySource::InGame),
        RecordRule::verified(RuleScope::BlockRange { start: 3_289, end: 3_314 }, CategoryPath(&["입항허가", "획득 이미지 (128×128)"]), CategorySource::Custom),
        RecordRule::verified(RuleScope::BlockRange { start: 3_315, end: 3_507 }, CategoryPath(&["도움말"]), CategorySource::InGame),
        RecordRule::verified(RuleScope::BlockRange { start: 4_023, end: 4_026 }, CategoryPath(&["클라이언트", "스플래시 UI"]), CategorySource::Custom),
        RecordRule::verified(RuleScope::BlockRange { start: 7_933, end: 8_718 }, CategoryPath(&["도움말"]), CategorySource::Custom),
        RecordRule::verified(RuleScope::BlockRange { start: 8_842, end: 9_248 }, CategoryPath(&["지도", "세계지도"]), CategorySource::InGame),
        RecordRule::verified(RuleScope::BlockRange { start: 9_291, end: 9_978 }, CategoryPath(&["지도", "필드 지도"]), CategorySource::InGame),
        RecordRule::verified(RuleScope::BlockRange { start: 9_979, end: 10_011 }, CategoryPath(&["발견물", "2", "획득 이미지 (128×128)"]), CategorySource::Custom),
        RecordRule::verified(RuleScope::BlockRange { start: 10_012, end: 10_155 }, CategoryPath(&["지도", "던전 지도"]), CategorySource::InGame),
        RecordRule::verified(RuleScope::BlockRange { start: 10_156, end: 10_175 }, CategoryPath(&["가호"]), CategorySource::InGame),
        RecordRule::verified(RuleScope::BlockRange { start: 10_176, end: 10_199 }, CategoryPath(&["이벤트"]), CategorySource::InGame),
        RecordRule::verified(RuleScope::BlockRange { start: 10_200, end: 10_202 }, CategoryPath(&["인물", "미분류 초상화"]), CategorySource::Custom),
        RecordRule::verified(RuleScope::BlockRange { start: 10_203, end: 10_242 }, CategoryPath(&["클라이언트", "플레이스홀더"]), CategorySource::Custom),
        RecordRule::verified(RuleScope::BlockRange { start: 10_243, end: 10_271 }, CategoryPath(&["전승", "미발견 이미지 (128×128)"]), CategorySource::Custom),
        RecordRule::verified(RuleScope::BlockRange { start: 10_272, end: 10_303 }, CategoryPath(&["인물", "구조 부관", "초상화"]), CategorySource::Custom),
        RecordRule::verified(RuleScope::BlockRange { start: 10_304, end: 10_367 }, CategoryPath(&["인물", "구조 부관", "구조 이미지"]), CategorySource::Custom),
        RecordRule::verified(RuleScope::BlockRange { start: 10_368, end: 10_395 }, CategoryPath(&["UI 이미지", "예지의 서", "표지"]), CategorySource::Custom),
        RecordRule::verified(RuleScope::BlockRange { start: 10_396, end: 10_399 }, CategoryPath(&["UI 이미지", "예지의 서", "유산의 장", "레거시 테마 UI"]), CategorySource::Custom),
        RecordRule::verified(RuleScope::BlockRange { start: 10_400, end: 10_418 }, CategoryPath(&["UI 이미지", "예지의 서", "유산의 장", "레거시 상세 UI"]), CategorySource::Custom),
        RecordRule::verified(RuleScope::BlockRange { start: 10_439, end: 10_470 }, CategoryPath(&["UI 이미지", "별자리 조사", "천구도"]), CategorySource::Custom),
        RecordRule::verified(RuleScope::BlockRange { start: 10_471, end: 10_543 }, CategoryPath(&["UI 이미지", "별자리 조사", "별자리선 표시"]), CategorySource::Custom),
        RecordRule::verified(RuleScope::BlockRange { start: 10_544, end: 10_616 }, CategoryPath(&["UI 이미지", "별자리 조사", "별자리선과 그림 표시"]), CategorySource::Custom),
        RecordRule::verified(RuleScope::BlockRange { start: 10_617, end: 10_800 }, CategoryPath(&["UI 이미지", "별자리 조사", "별자리 이미지"]), CategorySource::Custom),
        RecordRule::verified(RuleScope::BlockRange { start: 10_801, end: 10_811 }, CategoryPath(&["인물", "미분류 초상화"]), CategorySource::Custom),
        RecordRule::verified(RuleScope::BlockRange { start: 10_812, end: 10_821 }, CategoryPath(&["캐러밴", "낙타"]), CategorySource::Custom),
        RecordRule::verified(RuleScope::BlockRange { start: 10_822, end: 10_830 }, CategoryPath(&["캐러밴", "대장 초상화"]), CategorySource::Custom),
    ]
}

/// The reviewed record rules of the `se` archive.
pub open spec fn se_record_rules() -> Seq<RecordRule> {
    seq![
        RecordRule::spec_verified(RuleScope::Group(0), CategoryPath(&["UI 이미지", "텍스트 라벨"]), CategorySource::Custom),
    ]
}

/// The reviewed record rules of the `se` archive.
pub fn se_record_rule_table() -> (rules: Vec<RecordRule>)
    ensures
        rules@ == se_record_rules(),
{
    vec![
        RecordRule::verified(RuleScope::Group(0), CategoryPath(&["UI 이미지", "텍스트 라벨"]), CategorySource::Custom),
    ]
}

/// The reviewed record rules of the `sf` archive.
pub open spec fn sf_record_rules() -> Seq<RecordRule> {
    seq![
        RecordRule::spec_verified(RuleScope::BlockRange { start: 0, end: 1_135 }, CategoryPath(&["UI 이미지", "버튼"]), CategorySource::Custom),
        RecordRule::spec_verified(RuleScope::BlockRange { start: 1_136, end: 1_410 }, CategoryPath(&["UI 아이콘", "원형 아이콘"]), CategorySource::Custom),
    ]
}

/// The reviewed record rules of the `sf` archive.
pub fn sf_record_rule_table() -> (rules: Vec<RecordRule>)
    ensures
        rules@ == sf_record_rules(),
{
    vec![
        RecordRule::verified(RuleScope::BlockRange { start: 0, end: 1_135 }, CategoryPath(&["UI 이미지", "버튼"]), CategorySource::Custom),
        RecordRule::verified(RuleScope::BlockRange { start: 1_136, end: 1_410 }, CategoryPath(&["UI 아이콘", "원형 아이콘"]), CategorySource::Custom),
    ]
}

/// The reviewed record rules of the `sg` archive.
pub open spec fn sg_record_rules() -> Seq<RecordRule> {
    seq![
        RecordRule::spec_verified(RuleScope::BlockRange { start: 0, end: 1_145 }, CategoryPath(&["UI 이미지", "버튼"]), CategorySource::Custom),
    ]
}

/// The reviewed record rules of the `sg` archive.
pub fn sg_record_rule_table() -> (rules: Vec<RecordRule>)
    ensures
        rules@ == sg_record_rules(),
{
    vec![
        RecordRule::verified(RuleScope::BlockRange { start: 0, end: 1_145 }, CategoryPath(&["UI 이미지", "버튼"]), CategorySource::Custom),
    ]
}

/// The reviewed record rules of the `sh` archive.
pub open spec fn sh_record_rules() -> Seq<RecordRule> {
    seq![
        RecordRule::spec_verified(RuleScope::BlockRange { start: 0, end: 87 }, CategoryPath(&["UI 이미지", "별자리 조사", "별자리 선화 (256×256)"]), CategorySource::Custom),
    ]
}

/// The reviewed record rules of the `sh` archive.
pub fn sh_record_rule_table() -> (rules: Vec<RecordRule>)
    ensures
        rules@ == sh_record_rules(),
{
    vec![
        RecordRule::verified(RuleScope::BlockRange { start: 0, end: 87 }, CategoryPath(&["UI 이미지", "별자리 조사", "별자리 선화 (256×256)"]), CategorySource::Custom),
    ]
}

/// The reviewed record rules of the `sw` archive.
pub open spec fn sw_record_rules() -> Seq<RecordRule> {
    seq![
        RecordRule::spec_verified(RuleScope::BlockRange { start: 0, end: 132 }, CategoryPath(&["인물", "캐릭터 얼굴"]), CategorySource::Custom),
    ]
}

/// The reviewed record rules of the `sw` archive.
pub fn sw_record_rule_table() -> (rules: Vec<RecordRule>)
    ensures
        rules@ == sw_record_rules(),
{
    vec![
        RecordRule::verified(RuleScope::BlockRange { start: 0, end: 132 }, CategoryPath(&["인물", "캐릭터 얼굴"]), CategorySource::Custom),
    ]
}

/// The reviewed record rules of the `sx` archive.
pub open spec fn sx_record_rules() -> Seq<RecordRule> {
    seq![
        RecordRule::spec_verified(RuleScope::BlockRange { start: 0, end: 219 }, CategoryPath(&["이벤트", "포트레잇"]), CategorySource::Custom),
    ]
}

/// The reviewed record rules of the `sx` archive.
pub fn sx_record_rule_table() -> (rules: Vec<RecordRule>)
    ensures
        rules@ == sx_record_rules(),
{
    vec![
        RecordRule::verified(RuleScope::BlockRange { start: 0, end: 219 }, CategoryPath(&["이벤트", "포트레잇"]), CategorySource::Custom),
    ]
}

/// The reviewed record rules of the `sy` archive.
pub open spec fn sy_record_rules() -> Seq<RecordRule> {
    seq![
        RecordRule::spec_verified(RuleScope::BlockRange { start: 0, end: 81 }, CategoryPath(&["이벤트", "삽화"]), CategorySource::Custom),
    ]
}

/// The reviewed record rules of the `sy` archive.
pub fn sy_record_rule_table() -> (rules: Vec<RecordRule>)
    ensures
        rules@ == sy_record_rules(),
{
    vec![
        RecordRule::verified(RuleScope::BlockRange { start: 0, end: 81 }, CategoryPath(&["이벤트", "삽화"]), CategorySource::Custom),
    ]
}

/// The reviewed record rules of the `sz` archive.
pub open spec fn sz_record_rules() -> Seq<RecordRule> {
    seq![
        RecordRule::spec_verified(RuleScope::BlockRange { start: 0, end: 33 }, CategoryPath(&["이벤트", "포트레잇"]), CategorySource::Custom),
    ]
}

/// The reviewed record rules of the `sz` archive.
pub fn sz_record_rule_table() -> (rules: Vec<RecordRule>)
    ensures
        rules@ == sz_record_rules(),
{
    vec![
        RecordRule::verified(RuleScope::BlockRange { start: 0, end: 33 }, CategoryPath(&["이벤트", "포트레잇"]), CategorySource::Custom),
    ]
}

/// The reviewed record rules of the `tm` archive.
pub open spec fn tm_record_rules() -> Seq<RecordRule> {
    seq![
        RecordRule::spec_verified(RuleScope::BlockRange { start: 0, end: 248 }, CategoryPath(&["지도", "도시·항구 미니맵 (180×139~141)"]), CategorySource::Custom),
    ]
}

/// The reviewed record rules of the `tm` archive.
pub fn tm_record_rule_table() -> (rules: Vec<RecordRule>)
    ensures
        rules@ == tm_record_rules(),
{
    vec![
        RecordRule::verified(RuleScope::BlockRange { start: 0, end: 248 }, CategoryPath(&["지도", "도시·항구 미니맵 (180×139~141)"]), CategorySource::Custom),
    ]
}

/// The reviewed record rules of the `is` archive.
pub open spec fn is_record_rules() -> Seq<RecordRule> {
    seq![
        RecordRule::spec_verified(RuleScope::IdRange { start: 0, end: u32::MAX }, CategoryPath(&["클라이언트", "로딩·스플래시 이미지"]), CategorySource::Custom),
    ]
}

/// The reviewed record rules of the `is` archive.
pub fn is_record_rule_table() -> (rules: Vec<RecordRule>)
    ensures
        rules@ == is_record_rules(),
{
    vec![
        RecordRule::verified(RuleScope::IdRange { start: 0, end: u32::MAX }, CategoryPath(&["클라이언트", "로딩·스플래시 이미지"]), CategorySource::Custom),
    ]
}

/// The reviewed record rules of the `kp` archive.
pub open spec fn kp_record_rules() -> Seq<RecordRule> {
    seq![
        RecordRule::spec_verified(RuleScope::BlockRange { start: 0, end: 4_095 }, CategoryPath(&["지도", "세계지도 (3072×1536)"]), CategorySource::Custom),
        RecordRule::spec_verified(RuleScope::BlockRange { start: 4_096, end: 4_100 }, CategoryPath(&["지도", "미분류 오버뷰 (256×256)"]), CategorySource::Temporary),
    ]
}

/// The reviewed record rules of the `kp` archive.
pub fn kp_record_rule_table() -> (rules: Vec<RecordRule>)
    ensures
        rules@ == kp_record_rules(),
{
    vec![
        RecordRule::verified(RuleScope::BlockRange { start: 0, end: 4_095 }, CategoryPath(&["지도", "세계지도 (3072×1536)"]), CategorySource::Custom),
        RecordRule::verified(RuleScope::BlockRange { start: 4_096, end: 4_100 }, CategoryPath(&["지도", "미분류 오버뷰 (256×256)"]), CategorySource::Temporary),
    ]
}

} // verus!
