//! The key and value enums, map and set aliases, and the "clean" retain rules
//! derived for a struct by the parser macro.
use vstd::prelude::*;
use crate::helpers::{float_name, int_name, is_bool, is_float, is_int, is_option, is_str_ref, is_string, is_vec, last_segment_is, last_segment_satisfies};
use crate::model::{FieldDef, StructDef, TypeShape};
use crate::text::{ascii_upper_of, chars_of, same_text, string_of, to_ascii_uppercase};

verus! {

/// Which values `to_clean_hash_map` drops for a field.
pub enum RetainRule {
    /// Drop empty strings, string slices and vectors.
    EmptyValue,
    /// Drop `false`.
    FalseValue,
    /// Drop integer zero.
    ZeroInt,
    /// Drop `0.0f32`.
    ZeroF32,
    /// Drop `0.0f64`.
    ZeroF64,
    /// Drop `None`.
    NoneValue,
}

/// One field's variant in the key and value enums.
pub struct ParserVariant {
    /// The field's name.
    pub field: String,
    /// The variant's identifier: the struct name followed by the capitalized field name.
    pub variant: String,
}

/// One arm of the retain match in `to_clean_hash_map`.
pub struct RetainArm {
    /// The value variant the arm matches.
    pub variant: String,
    /// The values it drops.
    pub rule: RetainRule,
}

/// The names and rules that the parser macro emits for a struct.
pub struct ParserPlan {
    /// `{Struct}ParserKey`.
    pub key_enum: String,
    /// `{Struct}ParserValue`.
    pub value_enum: String,
    /// `{Struct}HashMap`.
    pub hash_map: String,
    /// `{Struct}HashSet`.
    pub hash_set: String,
    /// One variant per field, in field order.
    pub variants: Vec<ParserVariant>,
    /// The retain arms, for the fields whose type has a rule, in field order.
    pub retain_arms: Vec<RetainArm>,
}

/// `s` with its first character in ASCII uppercase.
pub open spec fn capitalized(s: Seq<char>) -> Seq<char> {
    if s.len() == 0 {
        s
    } else {
        seq![ascii_upper_of(s[0])] + s.drop_first()
    }
}

/// The rule for a field type, tried in this order: strings, string slices and
/// vectors; `bool`; integers; floats; `Option`; none for any other type.
pub open spec fn retain_rule(ty: TypeShape) -> Option<RetainRule> {
    let str_ref = match ty {
        TypeShape::Reference { elem } => last_segment_is(*elem, "str"@),
        _ => false,
    };
    if last_segment_is(ty, "String"@) || str_ref || last_segment_is(ty, "Vec"@) {
        Some(RetainRule::EmptyValue)
    } else if last_segment_is(ty, "bool"@) {
        Some(RetainRule::FalseValue)
    } else if last_segment_satisfies(ty, |s: Seq<char>| int_name(s)) {
        Some(RetainRule::ZeroInt)
    } else if last_segment_satisfies(ty, |s: Seq<char>| float_name(s)) {
        if last_segment_is(ty, "f32"@) {
            Some(RetainRule::ZeroF32)
        } else {
            Some(RetainRule::ZeroF64)
        }
    } else if last_segment_is(ty, "Option"@) {
        Some(RetainRule::NoneValue)
    } else {
        None
    }
}

/// The variant identifier for a field of the struct.
pub open spec fn variant_name(struct_name: Seq<char>, field: Seq<char>) -> Seq<char> {
    struct_name + capitalized(field)
}

/// The variants of the fields, as (field, variant) pairs.
pub open spec fn variant_pairs(struct_name: Seq<char>, fields: Seq<FieldDef>) -> Seq<(Seq<char>, Seq<char>)> {
    fields.map_values(|f: FieldDef| (f.name@, variant_name(struct_name, f.name@)))
}

/// The retain arms for the fields of `fs` that have a rule, in order.
pub open spec fn retain_plan(struct_name: Seq<char>, fs: Seq<FieldDef>) -> Seq<(Seq<char>, RetainRule)>
    decreases fs.len(),
{
    if fs.len() == 0 {
        Seq::empty()
    } else {
        let rest = retain_plan(struct_name, fs.drop_last());
        match retain_rule(fs.last().ty) {
            Some(r) => rest.push((variant_name(struct_name, fs.last().name@), r)),
            None => rest,
        }
    }
}

/// The views of the variants of a plan.
pub open spec fn parser_variant_views(s: Seq<ParserVariant>) -> Seq<(Seq<char>, Seq<char>)> {
    s.map_values(|v: ParserVariant| (v.field@, v.variant@))
}

/// The views of the retain arms of a plan.
pub open spec fn retain_arm_views(s: Seq<RetainArm>) -> Seq<(Seq<char>, RetainRule)> {
    s.map_values(|a: RetainArm| (a.variant@, a.rule))
}

/// Uppercases the first character in ASCII.
pub fn capitalize(s: &str) -> (res: String)
    ensures
        res@ == capitalized(s@),
{
    let mut cs = chars_of(s);
    if cs.len() > 0 {
        let first = to_ascii_uppercase(cs[0]);
        cs.set(0, first);
        assert(cs@ =~= seq![ascii_upper_of(s@[0])] + s@.drop_first());
    }
    string_of(&cs)
}

/// The rule for a field type (see `retain_rule`).
pub fn retain_rule_of(ty: &TypeShape) -> (res: Option<RetainRule>)
    ensures
        res == retain_rule(*ty),
{
    if is_string(ty) || is_str_ref(ty) || is_vec(ty) {
        Some(RetainRule::EmptyValue)
    } else if is_bool(ty) {
        Some(RetainRule::FalseValue)
    } else if is_int(ty) {
        Some(RetainRule::ZeroInt)
    } else if is_float(ty) {
        match ty {
            TypeShape::Path { has_qself: _, segments } => {
                if same_text(segments[segments.len() - 1].as_str(), "f32") {
                    Some(RetainRule::ZeroF32)
                } else {
                    Some(RetainRule::ZeroF64)
                }
            },
            _ => None,
        }
    } else if is_option(ty) {
        Some(RetainRule::NoneValue)
    } else {
        None
    }
}

fn with_suffix(name: &str, suffix: &str) -> (res: String)
    ensures
        res@ == name@ + suffix@,
{
    let mut s = name.to_owned();
    s.append(suffix);
    s
}

/// The names and rules emitted by the parser macro for the struct.
pub fn parser_app(input: &StructDef) -> (res: ParserPlan)
    ensures
        res.key_enum@ == input.name@ + "ParserKey"@,
        res.value_enum@ == input.name@ + "ParserValue"@,
        res.hash_map@ == input.name@ + "HashMap"@,
        res.hash_set@ == input.name@ + "HashSet"@,
        parser_variant_views(res.variants@) == variant_pairs(input.name@, input.fields@),
        retain_arm_views(res.retain_arms@) == retain_plan(input.name@, input.fields@),
{
    let fields = &input.fields;
    let mut variants: Vec<ParserVariant> = Vec::new();
    let mut arms: Vec<RetainArm> = Vec::new();
    let mut i: usize = 0;
    while i < fields.len()
        invariant
            i <= fields.len(),
            fields == &input.fields,
            parser_variant_views(variants@) == variant_pairs(input.name@, fields@).take(i as int),
            retain_arm_views(arms@) == retain_plan(input.name@, fields@.take(i as int)),
        decreases fields.len() - i,
    {
        let f = &fields[i];
        let cap = capitalize(f.name.as_str());
        let variant = with_suffix(input.name.as_str(), cap.as_str());
        let ghost vname = variant@;
        proof {
            assert(fields@.take(i + 1).drop_last() =~= fields@.take(i as int));
            assert(fields@.take(i + 1).last() == *f);
        }
        match retain_rule_of(&f.ty) {
            Some(rule) => {
                let ghost before = retain_arm_views(arms@);
                arms.push(RetainArm { variant: variant.clone(), rule });
                assert(retain_arm_views(arms@) =~= before.push((vname, rule)));
            },
            None => {},
        }
        let ghost before = parser_variant_views(variants@);
        variants.push(ParserVariant { field: f.name.clone(), variant });
        assert(parser_variant_views(variants@) =~= before.push((f.name@, vname)));
        assert(variant_pairs(input.name@, fields@).take(i + 1) =~= variant_pairs(input.name@, fields@).take(
            i as int).push((f.name@, vname)));
        i += 1;
    }
    assert(fields@.take(fields.len() as int) =~= fields@);
    assert(variant_pairs(input.name@, fields@).take(fields.len() as int) =~= variant_pairs(input.name@, fields@));
    ParserPlan {
        key_enum: with_suffix(input.name.as_str(), "ParserKey"),
        value_enum: with_suffix(input.name.as_str(), "ParserValue"),
        hash_map: with_suffix(input.name.as_str(), "HashMap"),
        hash_set: with_suffix(input.name.as_str(), "HashSet"),
        variants,
        retain_arms: arms,
    }
}

} // verus!

verus! {

/// Capitalizing keeps the length and everything after the first character.
pub proof fn lemma_capitalized(s: Seq<char>)
    ensures
        capitalized(s).len() == s.len(),
        forall|i: int| 1 <= i < s.len() ==> #[trigger] capitalized(s)[i] == s[i],
{
}

/// The arm belongs to a field of `fs` whose type has a rule: it names that field's
/// variant and carries that rule.
pub open spec fn arm_of_field(struct_name: Seq<char>, fs: Seq<FieldDef>, arm: (Seq<char>, RetainRule)) -> bool {
    exists|j: int| #![trigger fs[j]]
        0 <= j < fs.len() && retain_rule(fs[j].ty) is Some
            && arm == (variant_name(struct_name, fs[j].name@), retain_rule(fs[j].ty)->0)
}

/// There is one variant per field, each retain arm belongs to a field whose type has
/// a rule, and there are never more arms than fields.
pub proof fn lemma_retain_plan(struct_name: Seq<char>, fs: Seq<FieldDef>)
    ensures
        variant_pairs(struct_name, fs).len() == fs.len(),
        retain_plan(struct_name, fs).len() <= fs.len(),
        forall|a: int| 0 <= a < retain_plan(struct_name, fs).len()
            ==> arm_of_field(struct_name, fs, #[trigger] retain_plan(struct_name, fs)[a]),
    decreases fs.len(),
{
    if fs.len() > 0 {
        let init = fs.drop_last();
        lemma_retain_plan(struct_name, init);
        let plan = retain_plan(struct_name, fs);
        let prev = retain_plan(struct_name, init);
        assert forall|a: int| 0 <= a < plan.len() implies arm_of_field(struct_name, fs, #[trigger] plan[a]) by {
            if a < prev.len() {
                assert(arm_of_field(struct_name, init, prev[a]));
                let j = choose|j: int| #![trigger init[j]]
                    0 <= j < init.len() && retain_rule(init[j].ty) is Some
                        && prev[a] == (variant_name(struct_name, init[j].name@), retain_rule(init[j].ty)->0);
                assert(fs[j] == init[j]);
                assert(plan[a] == prev[a]);
            } else {
                let j: int = fs.len() - 1;
                assert(plan[a] == (variant_name(struct_name, fs[j].name@), retain_rule(fs[j].ty)->0));
            }
        }
    }
}

} // verus!
