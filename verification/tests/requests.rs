use schedule_api::epoch::{
    effective_epoch, initial_epoch_text, plan_epoch_update, EpochUpdate, EpochUpdateError,
};
use schedule_api::import::{import_form, FormError};
use schedule_api::serialization::{deserialize_uuid, deserialize_uuid_option, serialize_uuid, UuidError};
use schedule_api::storage::{Group, QueryError};
use schedule_api::number::parse_i64;

#[test]
fn epoch_update_for_a_group() {
    match plan_epoch_update(Some(4), Some(12)) {
        Ok(EpochUpdate::Group { group_id, epoch }) => assert_eq!((group_id, epoch), (4, Some(12))),
        _ => panic!("expected a group update"),
    }
    match plan_epoch_update(Some(4), None) {
        Ok(EpochUpdate::Group { group_id, epoch }) => assert_eq!((group_id, epoch), (4, None)),
        _ => panic!("expected a group update"),
    }
}

#[test]
fn epoch_update_for_the_service() {
    match plan_epoch_update(None, Some(-3)) {
        Ok(EpochUpdate::Global { value }) => {
            assert_eq!(value, "-3");
            assert_eq!(parse_i64(&value), Ok(-3));
        }
        _ => panic!("expected a global update"),
    }
    let e = plan_epoch_update(None, None);
    assert!(matches!(e, Err(EpochUpdateError::EpochNoneForKv)));
    assert_eq!(EpochUpdateError::EpochNoneForKv.message(), "epoch_none_for_kv");
}

#[test]
fn group_epoch_overrides_service_epoch() {
    assert_eq!(effective_epoch(10, Some(3)), 3);
    assert_eq!(effective_epoch(10, None), 10);
    assert_eq!(initial_epoch_text(), "0");
}

#[test]
fn query_error_messages() {
    assert_eq!(QueryError::about("get_kv", "epoch").message(), "cannot_get_kv_epoch");
    assert_eq!(QueryError::about_id("get_group", -5).message(), "cannot_get_group_-5");
    assert_eq!(QueryError::about_id("update_epoch", 42).message(), "cannot_update_epoch_42");
    assert_eq!(QueryError::cannot("get_groups").message(), "cannot_get_groups");
}

#[test]
fn created_group_is_empty() {
    let g = Group::created(9, "IT-21".to_string());
    assert_eq!((g.id, g.epoch, g.name.as_str()), (9, None, "IT-21"));
    assert!(g.schedule.is_none());
}

#[test]
fn import_form_fields() {
    assert_eq!(import_form(Some(vec![1, 2]), Some(3)).ok(), Some((vec![1u8, 2], 3)));
    assert_eq!(import_form(None, Some(3)).err(), Some(FormError::EmptyFile));
    assert_eq!(import_form(None, None).err(), Some(FormError::EmptyFile));
    assert_eq!(import_form(Some(vec![]), None).err(), Some(FormError::EmptyGroupId));
    assert_eq!(FormError::EmptyGroupId.message(), "form_field_empty_group_id");
}

#[test]
fn uuid_fields() {
    let v = 0xa1a2a3a4b1b2c1c2d1d2d3d4d5d6d7d8u128;
    assert_eq!(serialize_uuid(v), "a1a2a3a4-b1b2-c1c2-d1d2-d3d4d5d6d7d8");
    assert_eq!(deserialize_uuid("a1a2a3a4-b1b2-c1c2-d1d2-d3d4d5d6d7d8"), Ok(v));
    assert_eq!(deserialize_uuid("A1A2A3A4B1B2C1C2D1D2D3D4D5D6D7D8"), Ok(v));
    assert_eq!(deserialize_uuid("nope"), Err(UuidError::CouldNotParse));
    assert_eq!(UuidError::CouldNotParse.message(), "Could not parse UUID");
    assert_eq!(deserialize_uuid_option(None), Ok(None));
    assert_eq!(deserialize_uuid_option(Some("a1a2a3a4-b1b2-c1c2-d1d2-d3d4d5d6d7d8")), Ok(Some(v)));
    assert_eq!(deserialize_uuid_option(Some("")), Err(UuidError::CouldNotParse));
    for u in [0u128, 1, u128::MAX, v] {
        assert_eq!(deserialize_uuid(&serialize_uuid(u)), Ok(u));
    }
    assert_eq!(serialize_uuid(0), "00000000-0000-0000-0000-000000000000");
}
