//! Field metadata of the three frame streams (main, slow, GPS) as plain
//! values, and the parallel name / signedness / unit arrays built from it.

use vstd::prelude::*;

verus! {

/// The physical unit of a field, one variant per unit the decoder knows.
#[derive(Clone, Copy, Debug, PartialEq, Eq, Structural)]
pub enum FieldUnit {
    Amperage,
    Voltage,
    Acceleration,
    Rotation,
    FlightMode,
    State,
    FailsafePhase,
    GpsCoordinate,
    Altitude,
    Velocity,
    GpsHeading,
    Boolean,
    Unitless,
}

/// The label of a unit: the name of its variant.
pub open spec fn unit_name(unit: FieldUnit) -> Seq<char> {
    match unit {
        FieldUnit::Amperage => "Amperage"@,
        FieldUnit::Voltage => "Voltage"@,
        FieldUnit::Acceleration => "Acceleration"@,
        FieldUnit::Rotation => "Rotation"@,
        FieldUnit::FlightMode => "FlightMode"@,
        FieldUnit::State => "State"@,
        FieldUnit::FailsafePhase => "FailsafePhase"@,
        FieldUnit::GpsCoordinate => "GpsCoordinate"@,
        FieldUnit::Altitude => "Altitude"@,
        FieldUnit::Velocity => "Velocity"@,
        FieldUnit::GpsHeading => "GpsHeading"@,
        FieldUnit::Boolean => "Boolean"@,
        FieldUnit::Unitless => "Unitless"@,
    }
}

/// Every unit is labelled with the name of its variant, and no two units
/// share a label.
pub proof fn law_unit_labels(unit: FieldUnit, other: FieldUnit)
    ensures
        unit == FieldUnit::Amperage ==> unit_name(unit) == "Amperage"@,
        unit == FieldUnit::Voltage ==> unit_name(unit) == "Voltage"@,
        unit == FieldUnit::Acceleration ==> unit_name(unit) == "Acceleration"@,
        unit == FieldUnit::Rotation ==> unit_name(unit) == "Rotation"@,
        unit == FieldUnit::FlightMode ==> unit_name(unit) == "FlightMode"@,
        unit == FieldUnit::State ==> unit_name(unit) == "State"@,
        unit == FieldUnit::FailsafePhase ==> unit_name(unit) == "FailsafePhase"@,
        unit == FieldUnit::GpsCoordinate ==> unit_name(unit) == "GpsCoordinate"@,
        unit == FieldUnit::Altitude ==> unit_name(unit) == "Altitude"@,
        unit == FieldUnit::Velocity ==> unit_name(unit) == "Velocity"@,
        unit == FieldUnit::GpsHeading ==> unit_name(unit) == "GpsHeading"@,
        unit == FieldUnit::Boolean ==> unit_name(unit) == "Boolean"@,
        unit == FieldUnit::Unitless ==> unit_name(unit) == "Unitless"@,
        unit_name(unit) == unit_name(other) ==> unit == other,
{
    reveal_strlit("Amperage");
    reveal_strlit("Voltage");
    reveal_strlit("Acceleration");
    reveal_strlit("Rotation");
    reveal_strlit("FlightMode");
    reveal_strlit("State");
    reveal_strlit("FailsafePhase");
    reveal_strlit("GpsCoordinate");
    reveal_strlit("Altitude");
    reveal_strlit("Velocity");
    reveal_strlit("GpsHeading");
    reveal_strlit("Boolean");
    reveal_strlit("Unitless");
    if unit_name(unit) == unit_name(other) && unit != other {
        let a = unit_name(unit);
        let b = unit_name(other);
        assert(a.len() == b.len());
        assert(a[0] == b[0]);
        assert(a[1] == b[1]);
        assert(a[a.len() - 1] == b[b.len() - 1]);
        assert(false);
    }
}

/// Returns the label of `unit`.
pub fn unit_label(unit: FieldUnit) -> (label: String)
    ensures
        label@ == unit_name(unit),
{
    let text: &str = match unit {
        FieldUnit::Amperage => "Amperage",
        FieldUnit::Voltage => "Voltage",
        FieldUnit::Acceleration => "Acceleration",
        FieldUnit::Rotation => "Rotation",
        FieldUnit::FlightMode => "FlightMode",
        FieldUnit::State => "State",
        FieldUnit::FailsafePhase => "FailsafePhase",
        FieldUnit::GpsCoordinate => "GpsCoordinate",
        FieldUnit::Altitude => "Altitude",
        FieldUnit::Velocity => "Velocity",
        FieldUnit::GpsHeading => "GpsHeading",
        FieldUnit::Boolean => "Boolean",
        FieldUnit::Unitless => "Unitless",
    };
    String::from_str(text)
}

/// One field of a frame definition.
pub struct FieldInfo {
    pub name: String,
    pub signed: bool,
    pub unit: FieldUnit,
}

/// The mathematical value of a [`FieldInfo`].
pub struct FieldView {
    pub name: Seq<char>,
    pub signed: bool,
    pub unit: FieldUnit,
}

impl View for FieldInfo {
    type V = FieldView;

    open spec fn view(&self) -> FieldView {
        FieldView { name: self.name@, signed: self.signed, unit: self.unit }
    }
}

/// The views of a sequence of strings.
pub open spec fn texts(v: Seq<String>) -> Seq<Seq<char>> {
    v.map_values(|s: String| s@)
}

/// The views of a sequence of field records.
pub open spec fn field_views(v: Seq<FieldInfo>) -> Seq<FieldView> {
    v.map_values(|f: FieldInfo| f@)
}

/// The names of `fields`, in order.
pub open spec fn field_names(fields: Seq<FieldView>) -> Seq<Seq<char>> {
    fields.map_values(|f: FieldView| f.name)
}

/// The signedness flag of a field as a byte: 1 for signed, 0 for unsigned.
pub open spec fn signed_byte(signed: bool) -> u8 {
    if signed {
        1
    } else {
        0
    }
}

/// The signedness bytes of `fields`, in order.
pub open spec fn field_signed_bytes(fields: Seq<FieldView>) -> Seq<u8> {
    fields.map_values(|f: FieldView| signed_byte(f.signed))
}

/// The unit labels of `fields`, in order.
pub open spec fn field_unit_labels(fields: Seq<FieldView>) -> Seq<Seq<char>> {
    fields.map_values(|f: FieldView| unit_name(f.unit))
}

/// Splits field records into the parallel arrays of names, signedness bytes
/// and unit labels.
pub fn unpack_fields(fields: &Vec<FieldInfo>) -> (out: (Vec<String>, Vec<u8>, Vec<String>))
    ensures
        texts(out.0@) == field_names(field_views(fields@)),
        out.1@ == field_signed_bytes(field_views(fields@)),
        texts(out.2@) == field_unit_labels(field_views(fields@)),
        out.0.len() == fields.len(),
        out.1.len() == fields.len(),
        out.2.len() == fields.len(),
        forall|i: int|
            0 <= i < fields.len() ==> {
                &&& out.0@[i]@ == (#[trigger] fields@[i]).name@
                &&& out.1@[i] == (if fields@[i].signed {
                    1u8
                } else {
                    0u8
                })
                &&& out.2@[i]@ == unit_name(fields@[i].unit)
            },
{
    let mut names: Vec<String> = Vec::new();
    let mut signed: Vec<u8> = Vec::new();
    let mut units: Vec<String> = Vec::new();
    let ghost all = field_views(fields@);
    for i in 0..fields.len()
        invariant
            all == field_views(fields@),
            texts(names@) == field_names(all).take(i as int),
            signed@ == field_signed_bytes(all).take(i as int),
            texts(units@) == field_unit_labels(all).take(i as int),
    {
        let field = &fields[i];
        let ghost before_names = names@;
        let ghost before_units = units@;
        names.push(field.name.clone());
        signed.push(if field.signed { 1u8 } else { 0u8 });
        units.push(unit_label(field.unit));
        assert(texts(names@) =~= texts(before_names).push(field.name@));
        assert(texts(units@) =~= texts(before_units).push(unit_name(field.unit)));
        assert(texts(names@) =~= field_names(all).take(i + 1));
        assert(signed@ =~= field_signed_bytes(all).take(i + 1));
        assert(texts(units@) =~= field_unit_labels(all).take(i + 1));
    }
    assert(field_names(all).take(fields.len() as int) =~= field_names(all));
    assert(field_signed_bytes(all).take(fields.len() as int) =~= field_signed_bytes(all));
    assert(field_unit_labels(all).take(fields.len() as int) =~= field_unit_labels(all));
    assert forall|i: int| 0 <= i < fields.len() implies {
        &&& names@[i]@ == (#[trigger] fields@[i]).name@
        &&& units@[i]@ == unit_name(fields@[i].unit)
    } by {
        assert(texts(names@)[i] == names@[i]@);
        assert(texts(units@)[i] == units@[i]@);
        assert(all[i] == fields@[i]@);
    }
    (names, signed, units)
}

/// Reads the signedness bytes back as flags: a byte other than 0 is signed.
pub fn signed_flags(bytes: &Vec<u8>) -> (flags: Vec<bool>)
    ensures
        flags@ == bytes@.map_values(|b: u8| b != 0),
{
    let mut flags: Vec<bool> = Vec::new();
    for i in 0..bytes.len()
        invariant
            flags@ == bytes@.take(i as int).map_values(|b: u8| b != 0),
    {
        flags.push(bytes[i] != 0);
        assert(bytes@.take(i + 1) =~= bytes@.take(i as int).push(bytes@[i as int]));
        assert(flags@ =~= bytes@.take(i + 1).map_values(|b: u8| b != 0));
    }
    assert(bytes@.take(bytes.len() as int) =~= bytes@);
    flags
}

} // verus!
