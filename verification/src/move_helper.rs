//! Move specification text for a field of a struct.
use vstd::prelude::*;
use crate::move_parser::{primitive_default, MoveField, MovePrimitiveType, MoveStruct};
use crate::text::{append_str, same_text};

verus! {

/// The primitive type that a field type names, if it names one.
pub open spec fn primitive_of(ty: Seq<char>) -> Option<MovePrimitiveType> {
    if ty == "u8"@ || ty == "u16"@ || ty == "u32"@ || ty == "u64"@ || ty == "u128"@ || ty
        == "u256"@ {
        Some(MovePrimitiveType::Integer)
    } else if ty == "bool"@ {
        Some(MovePrimitiveType::Bool)
    } else if ty == "address"@ {
        Some(MovePrimitiveType::Address)
    } else {
        None
    }
}

/// The spec block stating that field `field` of struct `name` keeps the
/// default value `value`.
pub open spec fn spec_block(name: Seq<char>, field: Seq<char>, value: Seq<char>) -> Seq<char> {
    "    spec "@ + name + " {\n        invariant "@ + field + " == "@ + value + ";\n    }\n"@
}

/// A spec block stating that `selected_field` of `move_struct` keeps the
/// default value of its type; `None` where its type is not a primitive type.
pub fn create_spec(move_struct: &MoveStruct, selected_field: &MoveField) -> (r: Option<String>)
    ensures
        r is None <==> primitive_of(selected_field._type@) is None,
        r matches Some(s) ==> s@ == spec_block(
            move_struct.name@,
            selected_field.name@,
            primitive_default(primitive_of(selected_field._type@).unwrap()),
        ),
{
    let ty = selected_field._type.as_str();
    let val = if same_text(ty, "u8") || same_text(ty, "u16") || same_text(ty, "u32") || same_text(
        ty,
        "u64",
    ) || same_text(ty, "u128") || same_text(ty, "u256") {
        MovePrimitiveType::Integer
    } else if same_text(ty, "bool") {
        MovePrimitiveType::Bool
    } else if same_text(ty, "address") {
        MovePrimitiveType::Address
    } else {
        return None;
    };
    let mut s = String::new();
    append_str(&mut s, "    spec ");
    append_str(&mut s, move_struct.name.as_str());
    append_str(&mut s, " {\n        invariant ");
    append_str(&mut s, selected_field.name.as_str());
    append_str(&mut s, " == ");
    append_str(&mut s, val.default());
    append_str(&mut s, ";\n    }\n");
    proof {
        assert(s@ =~= spec_block(move_struct.name@, selected_field.name@, primitive_default(val)));
    }
    Some(s)
}

/// The Move integer types.
pub open spec fn integer_type_names() -> Seq<Seq<char>> {
    seq!["u256"@, "u128"@, "u64"@, "u32"@, "u16"@, "u8"@]
}

/// What `create_spec` writes for each field type: for each of the six
/// integer types `u8` to `u256` an invariant that the field is `0`, for
/// `bool` that it is `true`, for `address` that it is `@0xCAFE`; for any
/// other type nothing.
pub proof fn lemma_spec_block_for_type(name: Seq<char>, field: Seq<char>, ty: Seq<char>)
    ensures
        integer_type_names().contains(ty) ==> (primitive_of(ty) matches Some(p) && spec_block(
            name,
            field,
            primitive_default(p),
        ) == "    spec "@ + name + " {\n        invariant "@ + field + " == 0;\n    }\n"@),
        ty == "bool"@ ==> (primitive_of(ty) matches Some(p) && spec_block(
            name,
            field,
            primitive_default(p),
        ) == "    spec "@ + name + " {\n        invariant "@ + field + " == true;\n    }\n"@),
        ty == "address"@ ==> (primitive_of(ty) matches Some(p) && spec_block(
            name,
            field,
            primitive_default(p),
        ) == "    spec "@ + name + " {\n        invariant "@ + field + " == @0xCAFE;\n    }\n"@),
        !integer_type_names().contains(ty) && ty != "bool"@ && ty != "address"@ ==> primitive_of(
            ty,
        ) is None,
{
    reveal_strlit("u8");
    reveal_strlit("u16");
    reveal_strlit("u32");
    reveal_strlit("u64");
    reveal_strlit("u128");
    reveal_strlit("u256");
    reveal_strlit("bool");
    reveal_strlit("address");
    reveal_strlit(" == ");
    reveal_strlit(";\n    }\n");
    reveal_strlit("0");
    reveal_strlit("true");
    reveal_strlit("@0xCAFE");
    reveal_strlit(" == 0;\n    }\n");
    reveal_strlit(" == true;\n    }\n");
    reveal_strlit(" == @0xCAFE;\n    }\n");
    let names = integer_type_names();
    if names.contains(ty) {
        let i = choose|i: int| 0 <= i < names.len() && names[i] == ty;
        assert(i == 0 || i == 1 || i == 2 || i == 3 || i == 4 || i == 5);
    } else {
        assert(names[0] == "u256"@ && names[1] == "u128"@ && names[2] == "u64"@);
        assert(names[3] == "u32"@ && names[4] == "u16"@ && names[5] == "u8"@);
    }
    assert("bool"@[0] != "u128"@[0] && "bool"@[0] != "u256"@[0]);
    assert("bool"@ != "u128"@ && "bool"@ != "u256"@);
    assert("address"@.len() != "u128"@.len() && "address"@.len() != "bool"@.len());
    let head = "    spec "@ + name + " {\n        invariant "@ + field;
    assert(" == "@ + "0"@ + ";\n    }\n"@ =~= " == 0;\n    }\n"@);
    assert(" == "@ + "true"@ + ";\n    }\n"@ =~= " == true;\n    }\n"@);
    assert(" == "@ + "@0xCAFE"@ + ";\n    }\n"@ =~= " == @0xCAFE;\n    }\n"@);
    assert(spec_block(name, field, "0"@) =~= head + " == 0;\n    }\n"@);
    assert(spec_block(name, field, "true"@) =~= head + " == true;\n    }\n"@);
    assert(spec_block(name, field, "@0xCAFE"@) =~= head + " == @0xCAFE;\n    }\n"@);
}
} // verus!
