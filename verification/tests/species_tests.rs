use rusty_js_runtime::interp::RuntimeError;
use rusty_js_runtime::species::{
    array_species_after_constructor, array_species_after_species, array_species_result, array_species_start,
    species_constructor_after_constructor, species_constructor_after_species, species_constructor_start,
    SpeciesStep,
};
use rusty_js_runtime::value::{ObjectId, Value};

fn message(r: Result<SpeciesStep, RuntimeError>) -> String {
    match r {
        Err(RuntimeError::TypeError(m)) => m,
        other => panic!("expected a TypeError, got {:?}", other),
    }
}

#[test]
fn species_constructor_steps() {
    assert!(matches!(species_constructor_start(&Value::Object(ObjectId(1))), Ok(SpeciesStep::ReadConstructor(ObjectId(1)))));
    assert_eq!(message(species_constructor_start(&Value::Null)), "SpeciesConstructor: this is not an Object");
    assert!(matches!(species_constructor_after_constructor(&Value::Undefined), Ok(SpeciesStep::Default)));
    assert!(matches!(species_constructor_after_constructor(&Value::Object(ObjectId(2))), Ok(SpeciesStep::ReadSpecies(ObjectId(2)))));
    assert_eq!(
        message(species_constructor_after_constructor(&Value::Boolean(true))),
        "SpeciesConstructor: constructor is not an Object"
    );
    assert!(matches!(species_constructor_after_species(&Value::Null, false), Ok(SpeciesStep::Default)));
    assert!(matches!(
        species_constructor_after_species(&Value::Object(ObjectId(3)), true),
        Ok(SpeciesStep::Use(Value::Object(ObjectId(3))))
    ));
    assert_eq!(
        message(species_constructor_after_species(&Value::Object(ObjectId(3)), false)),
        "SpeciesConstructor: @@species is not a constructor"
    );
}

#[test]
fn array_species_create_steps() {
    let arr = Value::Object(ObjectId(1));
    assert!(matches!(array_species_start(&arr, true), SpeciesStep::ReadConstructor(ObjectId(1))));
    assert!(matches!(array_species_start(&arr, false), SpeciesStep::Default));
    assert!(matches!(array_species_start(&Value::Undefined, true), SpeciesStep::Default));
    let array_ctor = Some(ObjectId(9));
    assert!(matches!(array_species_after_constructor(&Value::Object(ObjectId(9)), array_ctor), Ok(SpeciesStep::Default)));
    assert!(matches!(array_species_after_constructor(&Value::Undefined, array_ctor), Ok(SpeciesStep::Default)));
    assert!(matches!(
        array_species_after_constructor(&Value::Object(ObjectId(5)), array_ctor),
        Ok(SpeciesStep::ReadSpecies(ObjectId(5)))
    ));
    assert_eq!(
        message(array_species_after_constructor(&Value::Number(1.0f64.to_bits()), array_ctor)),
        "Array constructor is not a valid constructor"
    );
    assert!(matches!(array_species_after_species(&Value::Undefined, false), Ok(SpeciesStep::Default)));
    assert!(matches!(
        array_species_after_species(&Value::Object(ObjectId(5)), true),
        Ok(SpeciesStep::Use(Value::Object(ObjectId(5))))
    ));
    assert_eq!(message(array_species_after_species(&Value::Object(ObjectId(5)), false)), "Array @@species is not a constructor");
    assert_eq!(message(array_species_after_species(&Value::Boolean(true), true)), "Array @@species is not a constructor");
    assert!(matches!(array_species_result(&Value::Object(ObjectId(7)), ObjectId(8)), Value::Object(ObjectId(7))));
    assert!(matches!(array_species_result(&Value::Undefined, ObjectId(8)), Value::Object(ObjectId(8))));
}
