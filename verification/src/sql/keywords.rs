//! The reserved words of the dialect.
//!
//! Words are looked up in upper case; the table is laid out by length.
use crate::bytes::equal;
use crate::sql::TokenType;
use vstd::prelude::*;
use vstd::string::*;

verus! {

/// The longest reserved word, in bytes.
pub const MAX_KEYWORD_LEN: usize = 17;

/// The reserved words of 2 bytes.
pub open spec fn reserved_2(word: Seq<u8>) -> Option<TokenType> {
    if word == "AS".spec_bytes() {
        Some(TokenType::As)
    } else if word == "BY".spec_bytes() {
        Some(TokenType::By)
    } else if word == "IF".spec_bytes() {
        Some(TokenType::If)
    } else if word == "IN".spec_bytes() {
        Some(TokenType::In)
    } else if word == "IS".spec_bytes() {
        Some(TokenType::Is)
    } else if word == "NO".spec_bytes() {
        Some(TokenType::No)
    } else if word == "OF".spec_bytes() {
        Some(TokenType::Of)
    } else if word == "ON".spec_bytes() {
        Some(TokenType::On)
    } else if word == "OR".spec_bytes() {
        Some(TokenType::Or)
    } else if word == "TO".spec_bytes() {
        Some(TokenType::To)
    } else {
        None
    }
}

/// The reserved words of 3 bytes.
pub open spec fn reserved_3(word: Seq<u8>) -> Option<TokenType> {
    if word == "ADD".spec_bytes() {
        Some(TokenType::Add)
    } else if word == "ALL".spec_bytes() {
        Some(TokenType::All)
    } else if word == "AND".spec_bytes() {
        Some(TokenType::And)
    } else if word == "ASC".spec_bytes() {
        Some(TokenType::Asc)
    } else if word == "END".spec_bytes() {
        Some(TokenType::End)
    } else if word == "FOR".spec_bytes() {
        Some(TokenType::For)
    } else if word == "KEY".spec_bytes() {
        Some(TokenType::Key)
    } else if word == "NOT".spec_bytes() {
        Some(TokenType::Not)
    } else if word == "ROW".spec_bytes() {
        Some(TokenType::Row)
    } else if word == "SET".spec_bytes() {
        Some(TokenType::SetKw)
    } else {
        None
    }
}

/// The reserved words of 4 bytes.
pub open spec fn reserved_4(word: Seq<u8>) -> Option<TokenType> {
    if word == "CASE".spec_bytes() {
        Some(TokenType::Case)
    } else if word == "CAST".spec_bytes() {
        Some(TokenType::Cast)
    } else if word == "DESC".spec_bytes() {
        Some(TokenType::Desc)
    } else if word == "DROP".spec_bytes() {
        Some(TokenType::Drop)
    } else if word == "EACH".spec_bytes() {
        Some(TokenType::Each)
    } else if word == "ELSE".spec_bytes() {
        Some(TokenType::Else)
    } else if word == "FAIL".spec_bytes() {
        Some(TokenType::Fail)
    } else if word == "FROM".spec_bytes() {
        Some(TokenType::From)
    } else if word == "FULL".spec_bytes() {
        Some(TokenType::Full)
    } else if word == "GLOB".spec_bytes() {
        Some(TokenType::Glob)
    } else if word == "INTO".spec_bytes() {
        Some(TokenType::Into)
    } else if word == "JOIN".spec_bytes() {
        Some(TokenType::Join)
    } else if word == "LEFT".spec_bytes() {
        Some(TokenType::Left)
    } else if word == "LIKE".spec_bytes() {
        Some(TokenType::Like)
    } else if word == "NULL".spec_bytes() {
        Some(TokenType::Null)
    } else if word == "PLAN".spec_bytes() {
        Some(TokenType::Plan)
    } else if word == "TEMP".spec_bytes() {
        Some(TokenType::Temp)
    } else if word == "THEN".spec_bytes() {
        Some(TokenType::Then)
    } else if word == "VIEW".spec_bytes() {
        Some(TokenType::View)
    } else if word == "WHEN".spec_bytes() {
        Some(TokenType::When)
    } else if word == "WITH".spec_bytes() {
        Some(TokenType::With)
    } else {
        None
    }
}

/// The reserved words of 5 bytes.
pub open spec fn reserved_5(word: Seq<u8>) -> Option<TokenType> {
    if word == "ABORT".spec_bytes() {
        Some(TokenType::Abort)
    } else if word == "AFTER".spec_bytes() {
        Some(TokenType::After)
    } else if word == "ALTER".spec_bytes() {
        Some(TokenType::Alter)
    } else if word == "BEGIN".spec_bytes() {
        Some(TokenType::Begin)
    } else if word == "CHECK".spec_bytes() {
        Some(TokenType::Check)
    } else if word == "CROSS".spec_bytes() {
        Some(TokenType::Cross)
    } else if word == "GROUP".spec_bytes() {
        Some(TokenType::Group)
    } else if word == "INDEX".spec_bytes() {
        Some(TokenType::Index)
    } else if word == "INNER".spec_bytes() {
        Some(TokenType::Inner)
    } else if word == "LIMIT".spec_bytes() {
        Some(TokenType::Limit)
    } else if word == "MATCH".spec_bytes() {
        Some(TokenType::Match)
    } else if word == "ORDER".spec_bytes() {
        Some(TokenType::Order)
    } else if word == "OUTER".spec_bytes() {
        Some(TokenType::Outer)
    } else if word == "QUERY".spec_bytes() {
        Some(TokenType::Query)
    } else if word == "RAISE".spec_bytes() {
        Some(TokenType::Raise)
    } else if word == "RIGHT".spec_bytes() {
        Some(TokenType::Right)
    } else if word == "TABLE".spec_bytes() {
        Some(TokenType::Table)
    } else if word == "UNION".spec_bytes() {
        Some(TokenType::Union)
    } else if word == "USING".spec_bytes() {
        Some(TokenType::Using)
    } else if word == "WHERE".spec_bytes() {
        Some(TokenType::Where)
    } else {
        None
    }
}

/// The reserved words of 6 bytes.
pub open spec fn reserved_6(word: Seq<u8>) -> Option<TokenType> {
    if word == "ACTION".spec_bytes() {
        Some(TokenType::Action)
    } else if word == "ATTACH".spec_bytes() {
        Some(TokenType::Attach)
    } else if word == "BEFORE".spec_bytes() {
        Some(TokenType::Before)
    } else if word == "COLUMN".spec_bytes() {
        Some(TokenType::ColumnKw)
    } else if word == "COMMIT".spec_bytes() {
        Some(TokenType::Commit)
    } else if word == "CREATE".spec_bytes() {
        Some(TokenType::Create)
    } else if word == "DELETE".spec_bytes() {
        Some(TokenType::Delete)
    } else if word == "DETACH".spec_bytes() {
        Some(TokenType::Detach)
    } else if word == "ESCAPE".spec_bytes() {
        Some(TokenType::Escape)
    } else if word == "EXCEPT".spec_bytes() {
        Some(TokenType::Except)
    } else if word == "EXISTS".spec_bytes() {
        Some(TokenType::Exists)
    } else if word == "HAVING".spec_bytes() {
        Some(TokenType::Having)
    } else if word == "IGNORE".spec_bytes() {
        Some(TokenType::Ignore)
    } else if word == "INSERT".spec_bytes() {
        Some(TokenType::Insert)
    } else if word == "ISNULL".spec_bytes() {
        Some(TokenType::IsNull)
    } else if word == "OFFSET".spec_bytes() {
        Some(TokenType::Offset)
    } else if word == "PRAGMA".spec_bytes() {
        Some(TokenType::Pragma)
    } else if word == "REGEXP".spec_bytes() {
        Some(TokenType::Regexp)
    } else if word == "RENAME".spec_bytes() {
        Some(TokenType::Rename)
    } else if word == "SELECT".spec_bytes() {
        Some(TokenType::Select)
    } else if word == "UNIQUE".spec_bytes() {
        Some(TokenType::Unique)
    } else if word == "UPDATE".spec_bytes() {
        Some(TokenType::Update)
    } else if word == "VACUUM".spec_bytes() {
        Some(TokenType::Vacuum)
    } else if word == "VALUES".spec_bytes() {
        Some(TokenType::Values)
    } else {
        None
    }
}

/// The reserved words of 7 bytes.
pub open spec fn reserved_7(word: Seq<u8>) -> Option<TokenType> {
    if word == "ANALYZE".spec_bytes() {
        Some(TokenType::Analyze)
    } else if word == "BETWEEN".spec_bytes() {
        Some(TokenType::Between)
    } else if word == "CASCADE".spec_bytes() {
        Some(TokenType::Cascade)
    } else if word == "COLLATE".spec_bytes() {
        Some(TokenType::Collate)
    } else if word == "DEFAULT".spec_bytes() {
        Some(TokenType::Default)
    } else if word == "EXPLAIN".spec_bytes() {
        Some(TokenType::Explain)
    } else if word == "FOREIGN".spec_bytes() {
        Some(TokenType::Foreign)
    } else if word == "INDEXED".spec_bytes() {
        Some(TokenType::Indexed)
    } else if word == "INSTEAD".spec_bytes() {
        Some(TokenType::Instead)
    } else if word == "NATURAL".spec_bytes() {
        Some(TokenType::Natural)
    } else if word == "NOTNULL".spec_bytes() {
        Some(TokenType::NotNull)
    } else if word == "PRIMARY".spec_bytes() {
        Some(TokenType::Primary)
    } else if word == "REINDEX".spec_bytes() {
        Some(TokenType::Reindex)
    } else if word == "RELEASE".spec_bytes() {
        Some(TokenType::Release)
    } else if word == "REPLACE".spec_bytes() {
        Some(TokenType::Replace)
    } else if word == "TRIGGER".spec_bytes() {
        Some(TokenType::Trigger)
    } else if word == "VIRTUAL".spec_bytes() {
        Some(TokenType::Virtual)
    } else if word == "WITHOUT".spec_bytes() {
        Some(TokenType::Without)
    } else {
        None
    }
}

/// The reserved words of 8 bytes.
pub open spec fn reserved_8(word: Seq<u8>) -> Option<TokenType> {
    if word == "CONFLICT".spec_bytes() {
        Some(TokenType::Conflict)
    } else if word == "DATABASE".spec_bytes() {
        Some(TokenType::Database)
    } else if word == "DEFERRED".spec_bytes() {
        Some(TokenType::Deferred)
    } else if word == "DISTINCT".spec_bytes() {
        Some(TokenType::Distinct)
    } else if word == "RESTRICT".spec_bytes() {
        Some(TokenType::Restrict)
    } else if word == "ROLLBACK".spec_bytes() {
        Some(TokenType::Rollback)
    } else {
        None
    }
}

/// The reserved words of 9 bytes.
pub open spec fn reserved_9(word: Seq<u8>) -> Option<TokenType> {
    if word == "EXCLUSIVE".spec_bytes() {
        Some(TokenType::Exclusive)
    } else if word == "IMMEDIATE".spec_bytes() {
        Some(TokenType::Immediate)
    } else if word == "INITIALLY".spec_bytes() {
        Some(TokenType::Initially)
    } else if word == "INTERSECT".spec_bytes() {
        Some(TokenType::Intersect)
    } else if word == "RECURSIVE".spec_bytes() {
        Some(TokenType::Recursive)
    } else if word == "SAVEPOINT".spec_bytes() {
        Some(TokenType::Savepoint)
    } else if word == "TEMPORARY".spec_bytes() {
        Some(TokenType::Temp)
    } else {
        None
    }
}

/// The reserved words of 10 bytes.
pub open spec fn reserved_10(word: Seq<u8>) -> Option<TokenType> {
    if word == "CONSTRAINT".spec_bytes() {
        Some(TokenType::Constraint)
    } else if word == "DEFERRABLE".spec_bytes() {
        Some(TokenType::Deferrable)
    } else if word == "REFERENCES".spec_bytes() {
        Some(TokenType::References)
    } else {
        None
    }
}

/// The reserved words of 11 bytes.
pub open spec fn reserved_11(word: Seq<u8>) -> Option<TokenType> {
    if word == "TRANSACTION".spec_bytes() {
        Some(TokenType::Transaction)
    } else {
        None
    }
}

/// The reserved words of 12 bytes.
pub open spec fn reserved_12(word: Seq<u8>) -> Option<TokenType> {
    if word == "CURRENT_DATE".spec_bytes() {
        Some(TokenType::CurrentDate)
    } else if word == "CURRENT_TIME".spec_bytes() {
        Some(TokenType::CurrentTime)
    } else {
        None
    }
}

/// The reserved words of 13 bytes.
pub open spec fn reserved_13(word: Seq<u8>) -> Option<TokenType> {
    if word == "AUTOINCREMENT".spec_bytes() {
        Some(TokenType::Autoincr)
    } else {
        None
    }
}

/// The reserved words of 17 bytes.
pub open spec fn reserved_17(word: Seq<u8>) -> Option<TokenType> {
    if word == "CURRENT_TIMESTAMP".spec_bytes() {
        Some(TokenType::CurrentTimestamp)
    } else {
        None
    }
}

/// The kind of token that the upper-case word `word` is reserved for, if any.
pub open spec fn reserved(word: Seq<u8>) -> Option<TokenType> {
    if word.len() == 2 {
        reserved_2(word)
    } else if word.len() == 3 {
        reserved_3(word)
    } else if word.len() == 4 {
        reserved_4(word)
    } else if word.len() == 5 {
        reserved_5(word)
    } else if word.len() == 6 {
        reserved_6(word)
    } else if word.len() == 7 {
        reserved_7(word)
    } else if word.len() == 8 {
        reserved_8(word)
    } else if word.len() == 9 {
        reserved_9(word)
    } else if word.len() == 10 {
        reserved_10(word)
    } else if word.len() == 11 {
        reserved_11(word)
    } else if word.len() == 12 {
        reserved_12(word)
    } else if word.len() == 13 {
        reserved_13(word)
    } else if word.len() == 17 {
        reserved_17(word)
    } else {
        None
    }
}

/// Looks a word of 2 bytes up.
fn keyword_2(word: &[u8]) -> (kind: Option<TokenType>)
    ensures
        kind == reserved_2(word@),
{
    if equal(word, "AS".as_bytes()) {
        Some(TokenType::As)
    } else if equal(word, "BY".as_bytes()) {
        Some(TokenType::By)
    } else if equal(word, "IF".as_bytes()) {
        Some(TokenType::If)
    } else if equal(word, "IN".as_bytes()) {
        Some(TokenType::In)
    } else if equal(word, "IS".as_bytes()) {
        Some(TokenType::Is)
    } else if equal(word, "NO".as_bytes()) {
        Some(TokenType::No)
    } else if equal(word, "OF".as_bytes()) {
        Some(TokenType::Of)
    } else if equal(word, "ON".as_bytes()) {
        Some(TokenType::On)
    } else if equal(word, "OR".as_bytes()) {
        Some(TokenType::Or)
    } else if equal(word, "TO".as_bytes()) {
        Some(TokenType::To)
    } else {
        None
    }
}

/// Looks a word of 3 bytes up.
fn keyword_3(word: &[u8]) -> (kind: Option<TokenType>)
    ensures
        kind == reserved_3(word@),
{
    if equal(word, "ADD".as_bytes()) {
        Some(TokenType::Add)
    } else if equal(word, "ALL".as_bytes()) {
        Some(TokenType::All)
    } else if equal(word, "AND".as_bytes()) {
        Some(TokenType::And)
    } else if equal(word, "ASC".as_bytes()) {
        Some(TokenType::Asc)
    } else if equal(word, "END".as_bytes()) {
        Some(TokenType::End)
    } else if equal(word, "FOR".as_bytes()) {
        Some(TokenType::For)
    } else if equal(word, "KEY".as_bytes()) {
        Some(TokenType::Key)
    } else if equal(word, "NOT".as_bytes()) {
        Some(TokenType::Not)
    } else if equal(word, "ROW".as_bytes()) {
        Some(TokenType::Row)
    } else if equal(word, "SET".as_bytes()) {
        Some(TokenType::SetKw)
    } else {
        None
    }
}

/// Looks a word of 4 bytes up.
fn keyword_4(word: &[u8]) -> (kind: Option<TokenType>)
    ensures
        kind == reserved_4(word@),
{
    if equal(word, "CASE".as_bytes()) {
        Some(TokenType::Case)
    } else if equal(word, "CAST".as_bytes()) {
        Some(TokenType::Cast)
    } else if equal(word, "DESC".as_bytes()) {
        Some(TokenType::Desc)
    } else if equal(word, "DROP".as_bytes()) {
        Some(TokenType::Drop)
    } else if equal(word, "EACH".as_bytes()) {
        Some(TokenType::Each)
    } else if equal(word, "ELSE".as_bytes()) {
        Some(TokenType::Else)
    } else if equal(word, "FAIL".as_bytes()) {
        Some(TokenType::Fail)
    } else if equal(word, "FROM".as_bytes()) {
        Some(TokenType::From)
    } else if equal(word, "FULL".as_bytes()) {
        Some(TokenType::Full)
    } else if equal(word, "GLOB".as_bytes()) {
        Some(TokenType::Glob)
    } else if equal(word, "INTO".as_bytes()) {
        Some(TokenType::Into)
    } else if equal(word, "JOIN".as_bytes()) {
        Some(TokenType::Join)
    } else if equal(word, "LEFT".as_bytes()) {
        Some(TokenType::Left)
    } else if equal(word, "LIKE".as_bytes()) {
        Some(TokenType::Like)
    } else if equal(word, "NULL".as_bytes()) {
        Some(TokenType::Null)
    } else if equal(word, "PLAN".as_bytes()) {
        Some(TokenType::Plan)
    } else if equal(word, "TEMP".as_bytes()) {
        Some(TokenType::Temp)
    } else if equal(word, "THEN".as_bytes()) {
        Some(TokenType::Then)
    } else if equal(word, "VIEW".as_bytes()) {
        Some(TokenType::View)
    } else if equal(word, "WHEN".as_bytes()) {
        Some(TokenType::When)
    } else if equal(word, "WITH".as_bytes()) {
        Some(TokenType::With)
    } else {
        None
    }
}

/// Looks a word of 5 bytes up.
fn keyword_5(word: &[u8]) -> (kind: Option<TokenType>)
    ensures
        kind == reserved_5(word@),
{
    if equal(word, "ABORT".as_bytes()) {
        Some(TokenType::Abort)
    } else if equal(word, "AFTER".as_bytes()) {
        Some(TokenType::After)
    } else if equal(word, "ALTER".as_bytes()) {
        Some(TokenType::Alter)
    } else if equal(word, "BEGIN".as_bytes()) {
        Some(TokenType::Begin)
    } else if equal(word, "CHECK".as_bytes()) {
        Some(TokenType::Check)
    } else if equal(word, "CROSS".as_bytes()) {
        Some(TokenType::Cross)
    } else if equal(word, "GROUP".as_bytes()) {
        Some(TokenType::Group)
    } else if equal(word, "INDEX".as_bytes()) {
        Some(TokenType::Index)
    } else if equal(word, "INNER".as_bytes()) {
        Some(TokenType::Inner)
    } else if equal(word, "LIMIT".as_bytes()) {
        Some(TokenType::Limit)
    } else if equal(word, "MATCH".as_bytes()) {
        Some(TokenType::Match)
    } else if equal(word, "ORDER".as_bytes()) {
        Some(TokenType::Order)
    } else if equal(word, "OUTER".as_bytes()) {
        Some(TokenType::Outer)
    } else if equal(word, "QUERY".as_bytes()) {
        Some(TokenType::Query)
    } else if equal(word, "RAISE".as_bytes()) {
        Some(TokenType::Raise)
    } else if equal(word, "RIGHT".as_bytes()) {
        Some(TokenType::Right)
    } else if equal(word, "TABLE".as_bytes()) {
        Some(TokenType::Table)
    } else if equal(word, "UNION".as_bytes()) {
        Some(TokenType::Union)
    } else if equal(word, "USING".as_bytes()) {
        Some(TokenType::Using)
    } else if equal(word, "WHERE".as_bytes()) {
        Some(TokenType::Where)
    } else {
        None
    }
}

/// Looks a word of 6 bytes up.
fn keyword_6(word: &[u8]) -> (kind: Option<TokenType>)
    ensures
        kind == reserved_6(word@),
{
    if equal(word, "ACTION".as_bytes()) {
        Some(TokenType::Action)
    } else if equal(word, "ATTACH".as_bytes()) {
        Some(TokenType::Attach)
    } else if equal(word, "BEFORE".as_bytes()) {
        Some(TokenType::Before)
    } else if equal(word, "COLUMN".as_bytes()) {
        Some(TokenType::ColumnKw)
    } else if equal(word, "COMMIT".as_bytes()) {
        Some(TokenType::Commit)
    } else if equal(word, "CREATE".as_bytes()) {
        Some(TokenType::Create)
    } else if equal(word, "DELETE".as_bytes()) {
        Some(TokenType::Delete)
    } else if equal(word, "DETACH".as_bytes()) {
        Some(TokenType::Detach)
    } else if equal(word, "ESCAPE".as_bytes()) {
        Some(TokenType::Escape)
    } else if equal(word, "EXCEPT".as_bytes()) {
        Some(TokenType::Except)
    } else if equal(word, "EXISTS".as_bytes()) {
        Some(TokenType::Exists)
    } else if equal(word, "HAVING".as_bytes()) {
        Some(TokenType::Having)
    } else if equal(word, "IGNORE".as_bytes()) {
        Some(TokenType::Ignore)
    } else if equal(word, "INSERT".as_bytes()) {
        Some(TokenType::Insert)
    } else if equal(word, "ISNULL".as_bytes()) {
        Some(TokenType::IsNull)
    } else if equal(word, "OFFSET".as_bytes()) {
        Some(TokenType::Offset)
    } else if equal(word, "PRAGMA".as_bytes()) {
        Some(TokenType::Pragma)
    } else if equal(word, "REGEXP".as_bytes()) {
        Some(TokenType::Regexp)
    } else if equal(word, "RENAME".as_bytes()) {
        Some(TokenType::Rename)
    } else if equal(word, "SELECT".as_bytes()) {
        Some(TokenType::Select)
    } else if equal(word, "UNIQUE".as_bytes()) {
        Some(TokenType::Unique)
    } else if equal(word, "UPDATE".as_bytes()) {
        Some(TokenType::Update)
    } else if equal(word, "VACUUM".as_bytes()) {
        Some(TokenType::Vacuum)
    } else if equal(word, "VALUES".as_bytes()) {
        Some(TokenType::Values)
    } else {
        None
    }
}

/// Looks a word of 7 bytes up.
fn keyword_7(word: &[u8]) -> (kind: Option<TokenType>)
    ensures
        kind == reserved_7(word@),
{
    if equal(word, "ANALYZE".as_bytes()) {
        Some(TokenType::Analyze)
    } else if equal(word, "BETWEEN".as_bytes()) {
        Some(TokenType::Between)
    } else if equal(word, "CASCADE".as_bytes()) {
        Some(TokenType::Cascade)
    } else if equal(word, "COLLATE".as_bytes()) {
        Some(TokenType::Collate)
    } else if equal(word, "DEFAULT".as_bytes()) {
        Some(TokenType::Default)
    } else if equal(word, "EXPLAIN".as_bytes()) {
        Some(TokenType::Explain)
    } else if equal(word, "FOREIGN".as_bytes()) {
        Some(TokenType::Foreign)
    } else if equal(word, "INDEXED".as_bytes()) {
        Some(TokenType::Indexed)
    } else if equal(word, "INSTEAD".as_bytes()) {
        Some(TokenType::Instead)
    } else if equal(word, "NATURAL".as_bytes()) {
        Some(TokenType::Natural)
    } else if equal(word, "NOTNULL".as_bytes()) {
        Some(TokenType::NotNull)
    } else if equal(word, "PRIMARY".as_bytes()) {
        Some(TokenType::Primary)
    } else if equal(word, "REINDEX".as_bytes()) {
        Some(TokenType::Reindex)
    } else if equal(word, "RELEASE".as_bytes()) {
        Some(TokenType::Release)
    } else if equal(word, "REPLACE".as_bytes()) {
        Some(TokenType::Replace)
    } else if equal(word, "TRIGGER".as_bytes()) {
        Some(TokenType::Trigger)
    } else if equal(word, "VIRTUAL".as_bytes()) {
        Some(TokenType::Virtual)
    } else if equal(word, "WITHOUT".as_bytes()) {
        Some(TokenType::Without)
    } else {
        None
    }
}

/// Looks a word of 8 bytes up.
fn keyword_8(word: &[u8]) -> (kind: Option<TokenType>)
    ensures
        kind == reserved_8(word@),
{
    if equal(word, "CONFLICT".as_bytes()) {
        Some(TokenType::Conflict)
    } else if equal(word, "DATABASE".as_bytes()) {
        Some(TokenType::Database)
    } else if equal(word, "DEFERRED".as_bytes()) {
        Some(TokenType::Deferred)
    } else if equal(word, "DISTINCT".as_bytes()) {
        Some(TokenType::Distinct)
    } else if equal(word, "RESTRICT".as_bytes()) {
        Some(TokenType::Restrict)
    } else if equal(word, "ROLLBACK".as_bytes()) {
        Some(TokenType::Rollback)
    } else {
        None
    }
}

/// Looks a word of 9 bytes up.
fn keyword_9(word: &[u8]) -> (kind: Option<TokenType>)
    ensures
        kind == reserved_9(word@),
{
    if equal(word, "EXCLUSIVE".as_bytes()) {
        Some(TokenType::Exclusive)
    } else if equal(word, "IMMEDIATE".as_bytes()) {
        Some(TokenType::Immediate)
    } else if equal(word, "INITIALLY".as_bytes()) {
        Some(TokenType::Initially)
    } else if equal(word, "INTERSECT".as_bytes()) {
        Some(TokenType::Intersect)
    } else if equal(word, "RECURSIVE".as_bytes()) {
        Some(TokenType::Recursive)
    } else if equal(word, "SAVEPOINT".as_bytes()) {
        Some(TokenType::Savepoint)
    } else if equal(word, "TEMPORARY".as_bytes()) {
        Some(TokenType::Temp)
    } else {
        None
    }
}

/// Looks a word of 10 bytes up.
fn keyword_10(word: &[u8]) -> (kind: Option<TokenType>)
    ensures
        kind == reserved_10(word@),
{
    if equal(word, "CONSTRAINT".as_bytes()) {
        Some(TokenType::Constraint)
    } else if equal(word, "DEFERRABLE".as_bytes()) {
        Some(TokenType::Deferrable)
    } else if equal(word, "REFERENCES".as_bytes()) {
        Some(TokenType::References)
    } else {
        None
    }
}

/// Looks a word of 11 bytes up.
fn keyword_11(word: &[u8]) -> (kind: Option<TokenType>)
    ensures
        kind == reserved_11(word@),
{
    if equal(word, "TRANSACTION".as_bytes()) {
        Some(TokenType::Transaction)
    } else {
        None
    }
}

/// Looks a word of 12 bytes up.
fn keyword_12(word: &[u8]) -> (kind: Option<TokenType>)
    ensures
        kind == reserved_12(word@),
{
    if equal(word, "CURRENT_DATE".as_bytes()) {
        Some(TokenType::CurrentDate)
    } else if equal(word, "CURRENT_TIME".as_bytes()) {
        Some(TokenType::CurrentTime)
    } else {
        None
    }
}

/// Looks a word of 13 bytes up.
fn keyword_13(word: &[u8]) -> (kind: Option<TokenType>)
    ensures
        kind == reserved_13(word@),
{
    if equal(word, "AUTOINCREMENT".as_bytes()) {
        Some(TokenType::Autoincr)
    } else {
        None
    }
}

/// Looks a word of 17 bytes up.
fn keyword_17(word: &[u8]) -> (kind: Option<TokenType>)
    ensures
        kind == reserved_17(word@),
{
    if equal(word, "CURRENT_TIMESTAMP".as_bytes()) {
        Some(TokenType::CurrentTimestamp)
    } else {
        None
    }
}

/// Looks the upper-case word `word` up among the reserved words.
pub fn keyword(word: &[u8]) -> (kind: Option<TokenType>)
    ensures
        kind == reserved(word@),
{
    let n = word.len();
    if n == 2 {
        keyword_2(word)
    } else if n == 3 {
        keyword_3(word)
    } else if n == 4 {
        keyword_4(word)
    } else if n == 5 {
        keyword_5(word)
    } else if n == 6 {
        keyword_6(word)
    } else if n == 7 {
        keyword_7(word)
    } else if n == 8 {
        keyword_8(word)
    } else if n == 9 {
        keyword_9(word)
    } else if n == 10 {
        keyword_10(word)
    } else if n == 11 {
        keyword_11(word)
    } else if n == 12 {
        keyword_12(word)
    } else if n == 13 {
        keyword_13(word)
    } else if n == 17 {
        keyword_17(word)
    } else {
        None
    }
}

} // verus!
