//! The SQL methods derived for a struct: their names, statements and bound fields.
use vstd::prelude::*;
use crate::lit::{lit_as_str_value, lit_str_value, parse_lit_as_str, parse_lit_str};
use crate::model::{FieldDef, StructDef, field_names};
use crate::text::{chars_of, has_suffix, same_text, decimal, decimal_string, join, join_strings, lowercase_of, string_of, to_lowercase, views};

verus! {

/// How a generated method talks to the database.
pub enum SqlCall {
    /// `client.query(..)`, returning the rows.
    Query,
    /// `client.execute(..)`, returning the number of rows affected.
    Execute,
}

/// One generated database method.
pub struct SqlFn {
    /// The method's name.
    pub name: String,
    /// The SQL statement it runs.
    pub sql: String,
    /// The fields of `self` bound to `$1`, `$2`, ... in order.
    pub params: Vec<String>,
    /// Whether it queries rows or executes a statement.
    pub call: SqlCall,
    /// Whether it takes `&self` (else it is an associated function).
    pub takes_self: bool,
}

/// A generated method as plain values.
pub struct SqlFnView {
    pub name: Seq<char>,
    pub sql: Seq<char>,
    pub params: Seq<Seq<char>>,
    pub call: SqlCall,
    pub takes_self: bool,
}

impl View for SqlFn {
    type V = SqlFnView;

    open spec fn view(&self) -> SqlFnView {
        SqlFnView {
            name: self.name@,
            sql: self.sql@,
            params: views(self.params@),
            call: self.call,
            takes_self: self.takes_self,
        }
    }
}

/// The table of a struct as the row methods name it: its lowercased name in double
/// quotes.
pub open spec fn quoted_table(struct_name: Seq<char>) -> Seq<char> {
    seq!['"'] + lowercase_of(struct_name) + seq!['"']
}

/// The column list: the field names joined by `, `.
pub open spec fn column_list(fields: Seq<FieldDef>) -> Seq<char> {
    join(field_names(fields), ", "@)
}

/// The `SELECT .. WHERE field = $1` method for one field.
pub open spec fn select_by_plan(struct_name: Seq<char>, fields: Seq<FieldDef>, field: Seq<char>) -> SqlFnView {
    SqlFnView {
        name: "sql_select_by_"@ + field,
        sql: "SELECT "@ + column_list(fields) + " FROM "@ + quoted_table(struct_name) + " WHERE "@ + field + " = $1"@,
        params: seq![field],
        call: SqlCall::Query,
        takes_self: true,
    }
}

/// The `DELETE .. WHERE field = $1` method for one field.
pub open spec fn delete_by_plan(struct_name: Seq<char>, field: Seq<char>) -> SqlFnView {
    SqlFnView {
        name: "sql_delete_by_"@ + field,
        sql: "DELETE FROM "@ + quoted_table(struct_name) + " WHERE "@ + field + " = $1"@,
        params: seq![field],
        call: SqlCall::Execute,
        takes_self: true,
    }
}

/// The predicate "the column is not `field`".
pub open spec fn other_than(field: Seq<char>) -> spec_fn(Seq<char>) -> bool {
    |c: Seq<char>| c != field
}

/// The columns that an update by `field` sets: all others, in order.
pub open spec fn set_columns(fields: Seq<FieldDef>, field: Seq<char>) -> Seq<Seq<char>> {
    field_names(fields).filter(other_than(field))
}

/// `col = $i` for each column, numbered from 1.
pub open spec fn numbered_assignments(cols: Seq<Seq<char>>) -> Seq<Seq<char>> {
    Seq::new(cols.len(), |i: int| cols[i] + " = $"@ + decimal((i + 1) as nat))
}

/// The `SET` clause of an update by `field`: the numbered assignments of the other
/// columns, or `field = field` when there is no other column.
pub open spec fn set_clause(fields: Seq<FieldDef>, field: Seq<char>) -> Seq<char> {
    let cols = set_columns(fields, field);
    if cols.len() == 0 {
        field + " = "@ + field
    } else {
        join(numbered_assignments(cols), ", "@)
    }
}

/// The `UPDATE .. SET .. WHERE field = $n` method for one field; the key comes
/// after the set columns.
pub open spec fn update_by_plan(struct_name: Seq<char>, fields: Seq<FieldDef>, field: Seq<char>) -> SqlFnView {
    let cols = set_columns(fields, field);
    SqlFnView {
        name: "sql_update_by_"@ + field,
        sql: "UPDATE "@ + quoted_table(struct_name) + " SET "@ + set_clause(fields, field) + " WHERE "@ + field
            + " = $"@ + decimal((cols.len() + 1) as nat),
        params: cols.push(field),
        call: SqlCall::Execute,
        takes_self: true,
    }
}

/// `$1, $2, .., $n`.
pub open spec fn placeholders(n: nat) -> Seq<char> {
    join(Seq::new(n, |i: int| "$"@ + decimal((i + 1) as nat)), ", "@)
}

/// The `INSERT INTO .. VALUES ..` method binding every field.
pub open spec fn insert_plan(struct_name: Seq<char>, fields: Seq<FieldDef>) -> SqlFnView {
    SqlFnView {
        name: "sql_insert"@,
        sql: "INSERT INTO "@ + quoted_table(struct_name) + " ("@ + column_list(fields) + ") VALUES ("@
            + placeholders(fields.len()) + ")"@,
        params: field_names(fields),
        call: SqlCall::Execute,
        takes_self: true,
    }
}

/// The `SELECT .. FROM ..` method for all rows.
pub open spec fn select_all_plan(struct_name: Seq<char>, fields: Seq<FieldDef>) -> SqlFnView {
    SqlFnView {
        name: "sql_select_all"@,
        sql: "SELECT "@ + column_list(fields) + " FROM "@ + quoted_table(struct_name),
        params: Seq::empty(),
        call: SqlCall::Query,
        takes_self: true,
    }
}

/// The field names, in order.
fn field_name_list(fields: &Vec<FieldDef>) -> (res: Vec<String>)
    ensures
        views(res@) == field_names(fields@),
{
    let mut out: Vec<String> = Vec::new();
    let mut i: usize = 0;
    while i < fields.len()
        invariant
            i <= fields.len(),
            views(out@) == field_names(fields@).take(i as int),
        decreases fields.len() - i,
    {
        let ghost before = views(out@);
        out.push(fields[i].name.clone());
        assert(views(out@) =~= before.push(fields@[i as int].name@));
        assert(field_names(fields@).take(i + 1) =~= field_names(fields@).take(i as int).push(fields@[i as int].name@));
        i += 1;
    }
    assert(field_names(fields@).take(fields.len() as int) =~= field_names(fields@));
    out
}

fn table_of(struct_name: &str) -> (res: String)
    ensures
        res@ == quoted_table(struct_name@),
{
    let lower = to_lowercase(struct_name);
    let mut t = String::new();
    t.push('"');
    t.append(lower.as_str());
    t.push('"');
    assert(t@ =~= quoted_table(struct_name@));
    t
}

fn columns_of(fields: &Vec<FieldDef>) -> (res: String)
    ensures
        res@ == column_list(fields@),
{
    let names = field_name_list(fields);
    join_strings(&names, ", ")
}

fn prefixed(prefix: &str, name: &str) -> (res: String)
    ensures
        res@ == prefix@ + name@,
{
    let mut s = prefix.to_owned();
    s.append(name);
    s
}

fn one_param(name: &String) -> (res: Vec<String>)
    ensures
        views(res@) == seq![name@],
{
    let mut v: Vec<String> = Vec::new();
    v.push(name.clone());
    assert(views(v@) =~= seq![name@]);
    v
}

/// The method that selects the rows whose `field` equals `self.field`.
pub fn sql_select_by_field(input: &StructDef, field: &FieldDef, fields: &Vec<FieldDef>) -> (res: SqlFn)
    ensures
        res@ == select_by_plan(input.name@, fields@, field.name@),
{
    let table = table_of(input.name.as_str());
    let cols = columns_of(fields);
    let mut sql = String::new();
    sql.append("SELECT ");
    sql.append(cols.as_str());
    sql.append(" FROM ");
    sql.append(table.as_str());
    sql.append(" WHERE ");
    sql.append(field.name.as_str());
    sql.append(" = $1");
    let res = SqlFn {
        name: prefixed("sql_select_by_", field.name.as_str()),
        sql,
        params: one_param(&field.name),
        call: SqlCall::Query,
        takes_self: true,
    };
    assert(res@.sql =~= select_by_plan(input.name@, fields@, field.name@).sql);
    res
}

/// The method that deletes the rows whose `field` equals `self.field`.
pub fn sql_delete_by_field(input: &StructDef, field: &FieldDef) -> (res: SqlFn)
    ensures
        res@ == delete_by_plan(input.name@, field.name@),
{
    let table = table_of(input.name.as_str());
    let mut sql = String::new();
    sql.append("DELETE FROM ");
    sql.append(table.as_str());
    sql.append(" WHERE ");
    sql.append(field.name.as_str());
    sql.append(" = $1");
    let res = SqlFn {
        name: prefixed("sql_delete_by_", field.name.as_str()),
        sql,
        params: one_param(&field.name),
        call: SqlCall::Execute,
        takes_self: true,
    };
    assert(res@.sql =~= delete_by_plan(input.name@, field.name@).sql);
    res
}

/// The method that selects all rows.
pub fn sql_select_all_method(input: &StructDef, fields: &Vec<FieldDef>) -> (res: SqlFn)
    ensures
        res@ == select_all_plan(input.name@, fields@),
{
    let table = table_of(input.name.as_str());
    let cols = columns_of(fields);
    let mut sql = String::new();
    sql.append("SELECT ");
    sql.append(cols.as_str());
    sql.append(" FROM ");
    sql.append(table.as_str());
    let params: Vec<String> = Vec::new();
    let res = SqlFn { name: "sql_select_all".to_owned(), sql, params, call: SqlCall::Query, takes_self: true };
    assert(res@.sql =~= select_all_plan(input.name@, fields@).sql);
    assert(res@.params =~= Seq::<Seq<char>>::empty());
    res
}

} // verus!

verus! {

/// The method that writes every other field into the rows whose `field` equals
/// `self.field`.
pub fn sql_update_by_field(input: &StructDef, field: &FieldDef, fields: &Vec<FieldDef>) -> (res: SqlFn)
    requires
        fields.len() < usize::MAX,
    ensures
        res@ == update_by_plan(input.name@, fields@, field.name@),
{
    let table = table_of(input.name.as_str());
    let names = field_name_list(fields);
    let ghost all = field_names(fields@);
    let ghost f = field.name@;
    // the columns other than the key, in order
    let mut others: Vec<String> = Vec::new();
    let mut i: usize = 0;
    proof {
        reveal(Seq::filter);
        assert(all.take(0).filter(other_than(f)) =~= Seq::<Seq<char>>::empty());
        assert(views(others@) =~= Seq::<Seq<char>>::empty());
    }
    while i < names.len()
        invariant
            i <= names.len(),
            views(names@) == all,
            f == field.name@,
            views(others@) == all.take(i as int).filter(other_than(f)),
            others.len() <= i,
        decreases names.len() - i,
    {
        proof {
            reveal(Seq::filter);
            assert(all.take(i + 1).drop_last() =~= all.take(i as int));
            assert(all.take(i + 1).last() == names@[i as int]@);
        }
        if !same_text(names[i].as_str(), field.name.as_str()) {
            let ghost before = views(others@);
            others.push(names[i].clone());
            assert(views(others@) =~= before.push(names@[i as int]@));
        }
        i += 1;
    }
    assert(all.take(names.len() as int) =~= all);
    let ghost cols = set_columns(fields@, f);
    assert(views(others@) == cols);
    let mut clause = String::new();
    if others.len() == 0 {
        clause.append(field.name.as_str());
        clause.append(" = ");
        clause.append(field.name.as_str());
        assert(clause@ =~= set_clause(fields@, f));
    } else {
        let mut parts: Vec<String> = Vec::new();
        let mut j: usize = 0;
        while j < others.len()
            invariant
                j <= others.len(),
                views(others@) == cols,
                views(parts@) == numbered_assignments(cols).take(j as int),
            decreases others.len() - j,
        {
            let mut part = others[j].clone();
            part.append(" = $");
            let num = decimal_string(j + 1);
            part.append(num.as_str());
            let ghost before = views(parts@);
            parts.push(part);
            assert(views(parts@) =~= before.push(cols[j as int] + " = $"@ + decimal((j + 1) as nat)));
            assert(numbered_assignments(cols).take(j + 1) =~= numbered_assignments(cols).take(j as int).push(
                cols[j as int] + " = $"@ + decimal((j + 1) as nat)));
            j += 1;
        }
        assert(numbered_assignments(cols).take(others.len() as int) =~= numbered_assignments(cols));
        clause = join_strings(&parts, ", ");
    }
    let where_idx = decimal_string(others.len() + 1);
    let mut sql = String::new();
    sql.append("UPDATE ");
    sql.append(table.as_str());
    sql.append(" SET ");
    sql.append(clause.as_str());
    sql.append(" WHERE ");
    sql.append(field.name.as_str());
    sql.append(" = $");
    sql.append(where_idx.as_str());
    let mut params = others;
    let ghost before_params = views(params@);
    params.push(field.name.clone());
    assert(views(params@) =~= before_params.push(f));
    let res = SqlFn {
        name: prefixed("sql_update_by_", field.name.as_str()),
        sql,
        params,
        call: SqlCall::Execute,
        takes_self: true,
    };
    assert(res@.sql =~= update_by_plan(input.name@, fields@, f).sql);
    res
}

/// The method that inserts `self` as a row, binding every field in order.
pub fn sql_insert_method(input: &StructDef, fields: &Vec<FieldDef>) -> (res: SqlFn)
    ensures
        res@ == insert_plan(input.name@, fields@),
{
    let table = table_of(input.name.as_str());
    let cols = columns_of(fields);
    let params = field_name_list(fields);
    let ghost wanted = Seq::new(fields.len() as nat, |i: int| "$"@ + decimal((i + 1) as nat));
    let mut marks: Vec<String> = Vec::new();
    let mut i: usize = 0;
    while i < fields.len()
        invariant
            i <= fields.len(),
            wanted == Seq::new(fields.len() as nat, |i: int| "$"@ + decimal((i + 1) as nat)),
            views(marks@) == wanted.take(i as int),
        decreases fields.len() - i,
    {
        let mut m = "$".to_owned();
        let num = decimal_string(i + 1);
        m.append(num.as_str());
        let ghost before = views(marks@);
        marks.push(m);
        assert(views(marks@) =~= before.push("$"@ + decimal((i + 1) as nat)));
        assert(wanted.take(i + 1) =~= wanted.take(i as int).push(wanted[i as int]));
        i += 1;
    }
    assert(wanted.take(fields.len() as int) =~= wanted);
    let marks_text = join_strings(&marks, ", ");
    let mut sql = String::new();
    sql.append("INSERT INTO ");
    sql.append(table.as_str());
    sql.append(" (");
    sql.append(cols.as_str());
    sql.append(") VALUES (");
    sql.append(marks_text.as_str());
    sql.append(")");
    let res = SqlFn { name: "sql_insert".to_owned(), sql, params, call: SqlCall::Execute, takes_self: true };
    assert(res@.sql =~= insert_plan(input.name@, fields@).sql);
    res
}

/// A text made of one quote character alone, on which stripping quotes fails.
pub open spec fn lone_quote(s: Seq<char>) -> bool {
    s.len() == 1 && (s[0] == '"' || s[0] == '\'')
}

/// The text without its enclosing quotes, when it starts and ends with the same
/// quote character (`"` or `'`); else the text unchanged.
pub open spec fn without_quotes(s: Seq<char>) -> Seq<char> {
    if s.len() >= 1 && ((s[0] == '"' && s.last() == '"') || (s[0] == '\'' && s.last() == '\'')) {
        s.subrange(1, s.len() - 1)
    } else {
        s
    }
}

/// Removes the enclosing quotes of a token text, as described by `without_quotes`.
pub fn strip_sql_quotes(s: &str) -> (res: String)
    requires
        !lone_quote(s@),
    ensures
        res@ == without_quotes(s@),
{
    let cs = chars_of(s);
    let n: usize = cs.len();
    if n >= 1 && ((cs[0] == '"' && cs[n - 1] == '"') || (cs[0] == '\'' && cs[n - 1] == '\'')) {
        let mut inner: Vec<char> = Vec::new();
        let mut k: usize = 1;
        while k < n - 1
            invariant
                1 <= k <= n - 1,
                n == cs@.len(),
                inner@ == cs@.subrange(1, k as int),
            decreases n - 1 - k,
        {
            inner.push(cs[k]);
            k += 1;
            assert(inner@ =~= cs@.subrange(1, k as int));
        }
        string_of(&inner)
    } else {
        s.to_owned()
    }
}

/// The SQL column definition written in an `#[opt(sql = ..)]` attribute, read from
/// the token text: a string literal's value, else the text without enclosing quotes.
pub open spec fn sql_text(text: Seq<char>) -> Seq<char> {
    match lit_str_value(text) {
        Some(v) => v,
        None => match lit_as_str_value(text) {
            Some(v) => v,
            None => without_quotes(text),
        },
    }
}

/// Chooses the column definition from what the two literal parses gave for `text`:
/// the first value found, else `text` without enclosing quotes.
pub fn choose_sql_text(as_lit_str: Option<String>, as_lit: Option<String>, text: &str) -> (res: String)
    requires
        as_lit_str is None && as_lit is None ==> !lone_quote(text@),
    ensures
        res@ == match as_lit_str {
            Some(v) => v@,
            None => match as_lit {
                Some(v) => v@,
                None => without_quotes(text@),
            },
        },
{
    match as_lit_str {
        Some(v) => v,
        None => match as_lit {
            Some(v) => v,
            None => strip_sql_quotes(text),
        },
    }
}

/// The column definition given by an `#[opt(sql = ..)]` attribute's token text.
pub fn tk_to_sql_string(ts_opt: &Option<String>) -> (res: String)
    requires
        ts_opt is Some,
        !lone_quote(ts_opt->0@),
    ensures
        res@ == sql_text(ts_opt->0@),
{
    match ts_opt {
        Some(ts) => {
            let first = parse_lit_str(ts.as_str());
            let second = parse_lit_as_str(ts.as_str());
            choose_sql_text(first, second, ts.as_str())
        },
        None => {
            assert(false);
            String::new()
        },
    }
}

/// Every field carries an `sql` attribute whose text can be read.
pub open spec fn migratable(fields: Seq<FieldDef>) -> bool {
    forall|i: int| 0 <= i < fields.len() ==> (#[trigger] fields[i]).sql is Some && !lone_quote(fields[i].sql->0@)
}

/// `name sql` for each field.
pub open spec fn column_defs(fields: Seq<FieldDef>) -> Seq<Seq<char>> {
    fields.map_values(|f: FieldDef| f.name@ + " "@ + sql_text(f.sql->0@))
}

/// The two migration functions: create the table (temporary, or not) if it does not
/// exist, with one column per field. The table name here is lowercased but not quoted.
pub open spec fn migration_plans(struct_name: Seq<char>, fields: Seq<FieldDef>) -> Seq<SqlFnView> {
    let defs = join(column_defs(fields), ", "@);
    seq![
        SqlFnView {
            name: "up_migrations_temporary_table_if_not_exists"@,
            sql: "CREATE TEMPORARY TABLE IF NOT EXISTS "@ + lowercase_of(struct_name) + " ("@ + defs + ")"@,
            params: Seq::empty(),
            call: SqlCall::Execute,
            takes_self: false,
        },
        SqlFnView {
            name: "up_migrations_table_if_not_exists"@,
            sql: "CREATE TABLE IF NOT EXISTS "@ + lowercase_of(struct_name) + " ("@ + defs + ")"@,
            params: Seq::empty(),
            call: SqlCall::Execute,
            takes_self: false,
        },
    ]
}

/// The views of a sequence of generated methods.
pub open spec fn fn_views(s: Seq<SqlFn>) -> Seq<SqlFnView> {
    s.map_values(|f: SqlFn| f@)
}

/// The migration functions for the struct's table.
pub fn up_migrations(input: &StructDef) -> (res: Vec<SqlFn>)
    requires
        migratable(input.fields@),
    ensures
        fn_views(res@) == migration_plans(input.name@, input.fields@),
{
    let fields = &input.fields;
    let ghost wanted = column_defs(fields@);
    let mut defs: Vec<String> = Vec::new();
    let mut i: usize = 0;
    while i < fields.len()
        invariant
            i <= fields.len(),
            fields == &input.fields,
            migratable(fields@),
            wanted == column_defs(fields@),
            views(defs@) == wanted.take(i as int),
        decreases fields.len() - i,
    {
        let f = &fields[i];
        assert(fields@[i as int] == *f);
        let sql = tk_to_sql_string(&f.sql);
        let mut d = f.name.clone();
        d.append(" ");
        d.append(sql.as_str());
        let ghost before = views(defs@);
        defs.push(d);
        assert(views(defs@) =~= before.push(wanted[i as int]));
        assert(wanted.take(i + 1) =~= wanted.take(i as int).push(wanted[i as int]));
        i += 1;
    }
    assert(wanted.take(fields.len() as int) =~= wanted);
    let fields_sql = join_strings(&defs, ", ");
    let table = to_lowercase(input.name.as_str());
    let mut temp_sql = "CREATE TEMPORARY TABLE IF NOT EXISTS ".to_owned();
    temp_sql.append(table.as_str());
    temp_sql.append(" (");
    temp_sql.append(fields_sql.as_str());
    temp_sql.append(")");
    let mut table_sql = "CREATE TABLE IF NOT EXISTS ".to_owned();
    table_sql.append(table.as_str());
    table_sql.append(" (");
    table_sql.append(fields_sql.as_str());
    table_sql.append(")");
    let temp = SqlFn {
        name: "up_migrations_temporary_table_if_not_exists".to_owned(),
        sql: temp_sql,
        params: Vec::new(),
        call: SqlCall::Execute,
        takes_self: false,
    };
    let plain = SqlFn {
        name: "up_migrations_table_if_not_exists".to_owned(),
        sql: table_sql,
        params: Vec::new(),
        call: SqlCall::Execute,
        takes_self: false,
    };
    let ghost plans = migration_plans(input.name@, input.fields@);
    assert(temp@.sql =~= plans[0].sql);
    assert(plain@.sql =~= plans[1].sql);
    assert(temp@.params =~= plans[0].params);
    assert(plain@.params =~= plans[1].params);
    let mut res: Vec<SqlFn> = Vec::new();
    res.push(temp);
    res.push(plain);
    assert(fn_views(res@) =~= plans);
    res
}

} // verus!

verus! {

/// The select, update and delete methods of each field of `fs`, in order.
pub open spec fn field_plans(struct_name: Seq<char>, all: Seq<FieldDef>, fs: Seq<FieldDef>) -> Seq<SqlFnView>
    decreases fs.len(),
{
    if fs.len() == 0 {
        Seq::empty()
    } else {
        let f = fs.last().name@;
        field_plans(struct_name, all, fs.drop_last()) + seq![
            select_by_plan(struct_name, all, f),
            update_by_plan(struct_name, all, f),
            delete_by_plan(struct_name, f),
        ]
    }
}

/// Everything derived for a struct, in the order it is emitted: select all, insert,
/// the two migrations, then select, update and delete by each field.
pub open spec fn sql_app_plan(struct_name: Seq<char>, fields: Seq<FieldDef>) -> Seq<SqlFnView> {
    seq![select_all_plan(struct_name, fields), insert_plan(struct_name, fields)]
        + migration_plans(struct_name, fields) + field_plans(struct_name, fields, fields)
}

/// The database methods derived for the struct.
pub fn sql_app(input: &StructDef) -> (res: Vec<SqlFn>)
    requires
        migratable(input.fields@),
        input.fields.len() < usize::MAX,
    ensures
        fn_views(res@) == sql_app_plan(input.name@, input.fields@),
{
    let fields = &input.fields;
    let ghost name = input.name@;
    let mut methods: Vec<SqlFn> = Vec::new();
    let mut i: usize = 0;
    while i < fields.len()
        invariant
            i <= fields.len(),
            fields == &input.fields,
            fields.len() < usize::MAX,
            name == input.name@,
            fn_views(methods@) == field_plans(name, fields@, fields@.take(i as int)),
        decreases fields.len() - i,
    {
        let field = &fields[i];
        let a = sql_select_by_field(input, field, fields);
        let b = sql_update_by_field(input, field, fields);
        let c = sql_delete_by_field(input, field);
        let ghost before = fn_views(methods@);
        methods.push(a);
        methods.push(b);
        methods.push(c);
        proof {
            assert(fields@.take(i + 1).drop_last() =~= fields@.take(i as int));
            assert(fields@.take(i + 1).last() == *field);
            assert(fn_views(methods@) =~= before + seq![a@, b@, c@]);
        }
        i += 1;
    }
    assert(fields@.take(fields.len() as int) =~= fields@);
    let mut res: Vec<SqlFn> = Vec::new();
    let select_all = sql_select_all_method(input, fields);
    let insert = sql_insert_method(input, fields);
    let migrations = up_migrations(input);
    let ghost per_field = fn_views(methods@);
    let ghost mig = fn_views(migrations@);
    res.push(select_all);
    res.push(insert);
    let mut migrations = migrations;
    res.append(&mut migrations);
    let mut methods = methods;
    res.append(&mut methods);
    assert(fn_views(res@) =~= seq![select_all_plan(name, fields@), insert_plan(name, fields@)] + mig + per_field);
    res
}

} // verus!

verus! {

/// The per-field methods come in threes: select, update and delete by each field,
/// in field order.
pub proof fn lemma_field_plans(struct_name: Seq<char>, all: Seq<FieldDef>, fs: Seq<FieldDef>)
    ensures
        field_plans(struct_name, all, fs).len() == 3 * fs.len(),
        forall|i: int| 0 <= i < fs.len() ==> {
            &&& #[trigger] field_plans(struct_name, all, fs)[3 * i] == select_by_plan(struct_name, all, fs[i].name@)
            &&& field_plans(struct_name, all, fs)[3 * i + 1] == update_by_plan(struct_name, all, fs[i].name@)
            &&& field_plans(struct_name, all, fs)[3 * i + 2] == delete_by_plan(struct_name, fs[i].name@)
        },
    decreases fs.len(),
{
    if fs.len() > 0 {
        lemma_field_plans(struct_name, all, fs.drop_last());
        let prev = field_plans(struct_name, all, fs.drop_last());
        assert forall|i: int| 0 <= i < fs.len() implies {
            &&& #[trigger] field_plans(struct_name, all, fs)[3 * i] == select_by_plan(struct_name, all, fs[i].name@)
            &&& field_plans(struct_name, all, fs)[3 * i + 1] == update_by_plan(struct_name, all, fs[i].name@)
            &&& field_plans(struct_name, all, fs)[3 * i + 2] == delete_by_plan(struct_name, fs[i].name@)
        } by {
            if i < fs.len() - 1 {
                assert(prev[3 * i] == select_by_plan(struct_name, all, fs.drop_last()[i].name@));
            }
        }
    }
}

/// Everything derived for a struct of `n` fields is `4 + 3 n` methods: select all,
/// insert, the two migrations, then select, update and delete by each field in
/// field order.
pub proof fn lemma_sql_app_layout(struct_name: Seq<char>, fields: Seq<FieldDef>)
    ensures
        sql_app_plan(struct_name, fields).len() == 4 + 3 * fields.len(),
        sql_app_plan(struct_name, fields)[0] == select_all_plan(struct_name, fields),
        sql_app_plan(struct_name, fields)[1] == insert_plan(struct_name, fields),
        sql_app_plan(struct_name, fields)[2] == migration_plans(struct_name, fields)[0],
        sql_app_plan(struct_name, fields)[3] == migration_plans(struct_name, fields)[1],
        forall|i: int| 0 <= i < fields.len() ==> {
            &&& #[trigger] sql_app_plan(struct_name, fields)[4 + 3 * i] == select_by_plan(struct_name, fields, fields[i].name@)
            &&& sql_app_plan(struct_name, fields)[5 + 3 * i] == update_by_plan(struct_name, fields, fields[i].name@)
            &&& sql_app_plan(struct_name, fields)[6 + 3 * i] == delete_by_plan(struct_name, fields[i].name@)
        },
{
    lemma_field_plans(struct_name, fields, fields);
    let plan = sql_app_plan(struct_name, fields);
    let per = field_plans(struct_name, fields, fields);
    assert forall|i: int| 0 <= i < fields.len() implies {
        &&& #[trigger] sql_app_plan(struct_name, fields)[4 + 3 * i] == select_by_plan(struct_name, fields, fields[i].name@)
        &&& sql_app_plan(struct_name, fields)[5 + 3 * i] == update_by_plan(struct_name, fields, fields[i].name@)
        &&& sql_app_plan(struct_name, fields)[6 + 3 * i] == delete_by_plan(struct_name, fields[i].name@)
    } by {
        assert(per[3 * i] == select_by_plan(struct_name, fields, fields[i].name@));
        assert(plan[4 + 3 * i] == per[3 * i]);
        assert(plan[5 + 3 * i] == per[3 * i + 1]);
        assert(plan[6 + 3 * i] == per[3 * i + 2]);
    }
}

/// An update binds the set columns first and the key last, and the key's placeholder
/// number is the number of bound parameters.
pub proof fn lemma_update_binds_key_last(struct_name: Seq<char>, fields: Seq<FieldDef>, field: Seq<char>)
    ensures
        ({
            let plan = update_by_plan(struct_name, fields, field);
            &&& plan.params.len() == set_columns(fields, field).len() + 1
            &&& plan.params.last() == field
            &&& plan.params.drop_last() == set_columns(fields, field)
            &&& !set_columns(fields, field).contains(field)
            &&& has_suffix(plan.sql, " WHERE "@ + field + " = $"@ + decimal(plan.params.len()))
        }),
{
    let plan = update_by_plan(struct_name, fields, field);
    let cols = set_columns(fields, field);
    assert(plan.params.drop_last() =~= cols);
    if cols.contains(field) {
        let k = choose|k: int| 0 <= k < cols.len() && cols[k] == field;
        field_names(fields).lemma_filter_pred(other_than(field), k);
    }
    let tail = " WHERE "@ + field + " = $"@ + decimal(plan.params.len());
    let head = "UPDATE "@ + quoted_table(struct_name) + " SET "@ + set_clause(fields, field);
    assert(plan.sql =~= head + tail);
    assert(plan.sql.subrange(plan.sql.len() - tail.len(), plan.sql.len() as int) =~= tail);
}

/// An insert binds every field, in field order, to `$1` .. `$n`.
pub proof fn lemma_insert_binds_all(struct_name: Seq<char>, fields: Seq<FieldDef>)
    ensures
        insert_plan(struct_name, fields).params.len() == fields.len(),
        forall|i: int| 0 <= i < fields.len() ==> #[trigger] insert_plan(struct_name, fields).params[i] == fields[i].name@,
{
}

} // verus!
