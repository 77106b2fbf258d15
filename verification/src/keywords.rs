//! The words that SQLite reserves.

use crate::text::same_text;
use vstd::prelude::*;

verus! {

/// Whether `word` is one of the keywords of SQLite, written in lower case.
pub open spec fn is_keyword(word: Seq<char>) -> bool {
    ||| word == "abort"@
    ||| word == "action"@
    ||| word == "add"@
    ||| word == "after"@
    ||| word == "all"@
    ||| word == "alter"@
    ||| word == "always"@
    ||| word == "analyze"@
    ||| word == "and"@
    ||| word == "as"@
    ||| word == "asc"@
    ||| word == "attach"@
    ||| word == "autoincrement"@
    ||| word == "before"@
    ||| word == "begin"@
    ||| word == "between"@
    ||| word == "by"@
    ||| word == "cascade"@
    ||| word == "case"@
    ||| word == "cast"@
    ||| word == "check"@
    ||| word == "collate"@
    ||| word == "column"@
    ||| word == "commit"@
    ||| word == "conflict"@
    ||| word == "constraint"@
    ||| word == "create"@
    ||| word == "cross"@
    ||| word == "current"@
    ||| word == "current_date"@
    ||| word == "current_time"@
    ||| word == "current_timestamp"@
    ||| word == "database"@
    ||| word == "default"@
    ||| word == "deferrable"@
    ||| word == "deferred"@
    ||| word == "delete"@
    ||| word == "desc"@
    ||| word == "detach"@
    ||| word == "distinct"@
    ||| word == "do"@
    ||| word == "drop"@
    ||| word == "each"@
    ||| word == "else"@
    ||| word == "end"@
    ||| word == "escape"@
    ||| word == "except"@
    ||| word == "exclude"@
    ||| word == "exclusive"@
    ||| word == "exists"@
    ||| word == "explain"@
    ||| word == "fail"@
    ||| word == "filter"@
    ||| word == "first"@
    ||| word == "following"@
    ||| word == "for"@
    ||| word == "foreign"@
    ||| word == "from"@
    ||| word == "full"@
    ||| word == "generated"@
    ||| word == "glob"@
    ||| word == "group"@
    ||| word == "groups"@
    ||| word == "having"@
    ||| word == "if"@
    ||| word == "ignore"@
    ||| word == "immediate"@
    ||| word == "in"@
    ||| word == "index"@
    ||| word == "indexed"@
    ||| word == "initially"@
    ||| word == "inner"@
    ||| word == "insert"@
    ||| word == "instead"@
    ||| word == "intersect"@
    ||| word == "into"@
    ||| word == "is"@
    ||| word == "isnull"@
    ||| word == "join"@
    ||| word == "key"@
    ||| word == "last"@
    ||| word == "left"@
    ||| word == "like"@
    ||| word == "limit"@
    ||| word == "match"@
    ||| word == "materialized"@
    ||| word == "natural"@
    ||| word == "no"@
    ||| word == "not"@
    ||| word == "nothing"@
    ||| word == "notnull"@
    ||| word == "null"@
    ||| word == "nulls"@
    ||| word == "of"@
    ||| word == "offset"@
    ||| word == "on"@
    ||| word == "or"@
    ||| word == "order"@
    ||| word == "others"@
    ||| word == "outer"@
    ||| word == "over"@
    ||| word == "partition"@
    ||| word == "plan"@
    ||| word == "pragma"@
    ||| word == "preceding"@
    ||| word == "primary"@
    ||| word == "query"@
    ||| word == "raise"@
    ||| word == "range"@
    ||| word == "recursive"@
    ||| word == "references"@
    ||| word == "regexp"@
    ||| word == "reindex"@
    ||| word == "release"@
    ||| word == "rename"@
    ||| word == "replace"@
    ||| word == "restrict"@
    ||| word == "returning"@
    ||| word == "right"@
    ||| word == "rollback"@
    ||| word == "row"@
    ||| word == "rows"@
    ||| word == "savepoint"@
    ||| word == "select"@
    ||| word == "set"@
    ||| word == "table"@
    ||| word == "temp"@
    ||| word == "temporary"@
    ||| word == "then"@
    ||| word == "ties"@
    ||| word == "to"@
    ||| word == "transaction"@
    ||| word == "trigger"@
    ||| word == "unbounded"@
    ||| word == "union"@
    ||| word == "unique"@
    ||| word == "update"@
    ||| word == "using"@
    ||| word == "vacuum"@
    ||| word == "values"@
    ||| word == "view"@
    ||| word == "virtual"@
    ||| word == "when"@
    ||| word == "where"@
    ||| word == "window"@
    ||| word == "with"@
    ||| word == "without"@
}

/// Tells whether `word` is one of the keywords of SQLite, written in lower case.
pub fn keyword(word: &str) -> (found: bool)
    ensures
        found == is_keyword(word@),
{
    same_text(word, "abort")
        || same_text(word, "action")
        || same_text(word, "add")
        || same_text(word, "after")
        || same_text(word, "all")
        || same_text(word, "alter")
        || same_text(word, "always")
        || same_text(word, "analyze")
        || same_text(word, "and")
        || same_text(word, "as")
        || same_text(word, "asc")
        || same_text(word, "attach")
        || same_text(word, "autoincrement")
        || same_text(word, "before")
        || same_text(word, "begin")
        || same_text(word, "between")
        || same_text(word, "by")
        || same_text(word, "cascade")
        || same_text(word, "case")
        || same_text(word, "cast")
        || same_text(word, "check")
        || same_text(word, "collate")
        || same_text(word, "column")
        || same_text(word, "commit")
        || same_text(word, "conflict")
        || same_text(word, "constraint")
        || same_text(word, "create")
        || same_text(word, "cross")
        || same_text(word, "current")
        || same_text(word, "current_date")
        || same_text(word, "current_time")
        || same_text(word, "current_timestamp")
        || same_text(word, "database")
        || same_text(word, "default")
        || same_text(word, "deferrable")
        || same_text(word, "deferred")
        || same_text(word, "delete")
        || same_text(word, "desc")
        || same_text(word, "detach")
        || same_text(word, "distinct")
        || same_text(word, "do")
        || same_text(word, "drop")
        || same_text(word, "each")
        || same_text(word, "else")
        || same_text(word, "end")
        || same_text(word, "escape")
        || same_text(word, "except")
        || same_text(word, "exclude")
        || same_text(word, "exclusive")
        || same_text(word, "exists")
        || same_text(word, "explain")
        || same_text(word, "fail")
        || same_text(word, "filter")
        || same_text(word, "first")
        || same_text(word, "following")
        || same_text(word, "for")
        || same_text(word, "foreign")
        || same_text(word, "from")
        || same_text(word, "full")
        || same_text(word, "generated")
        || same_text(word, "glob")
        || same_text(word, "group")
        || same_text(word, "groups")
        || same_text(word, "having")
        || same_text(word, "if")
        || same_text(word, "ignore")
        || same_text(word, "immediate")
        || same_text(word, "in")
        || same_text(word, "index")
        || same_text(word, "indexed")
        || same_text(word, "initially")
        || same_text(word, "inner")
        || same_text(word, "insert")
        || same_text(word, "instead")
        || same_text(word, "intersect")
        || same_text(word, "into")
        || same_text(word, "is")
        || same_text(word, "isnull")
        || same_text(word, "join")
        || same_text(word, "key")
        || same_text(word, "last")
        || same_text(word, "left")
        || same_text(word, "like")
        || same_text(word, "limit")
        || same_text(word, "match")
        || same_text(word, "materialized")
        || same_text(word, "natural")
        || same_text(word, "no")
        || same_text(word, "not")
        || same_text(word, "nothing")
        || same_text(word, "notnull")
        || same_text(word, "null")
        || same_text(word, "nulls")
        || same_text(word, "of")
        || same_text(word, "offset")
        || same_text(word, "on")
        || same_text(word, "or")
        || same_text(word, "order")
        || same_text(word, "others")
        || same_text(word, "outer")
        || same_text(word, "over")
        || same_text(word, "partition")
        || same_text(word, "plan")
        || same_text(word, "pragma")
        || same_text(word, "preceding")
        || same_text(word, "primary")
        || same_text(word, "query")
        || same_text(word, "raise")
        || same_text(word, "range")
        || same_text(word, "recursive")
        || same_text(word, "references")
        || same_text(word, "regexp")
        || same_text(word, "reindex")
        || same_text(word, "release")
        || same_text(word, "rename")
        || same_text(word, "replace")
        || same_text(word, "restrict")
        || same_text(word, "returning")
        || same_text(word, "right")
        || same_text(word, "rollback")
        || same_text(word, "row")
        || same_text(word, "rows")
        || same_text(word, "savepoint")
        || same_text(word, "select")
        || same_text(word, "set")
        || same_text(word, "table")
        || same_text(word, "temp")
        || same_text(word, "temporary")
        || same_text(word, "then")
        || same_text(word, "ties")
        || same_text(word, "to")
        || same_text(word, "transaction")
        || same_text(word, "trigger")
        || same_text(word, "unbounded")
        || same_text(word, "union")
        || same_text(word, "unique")
        || same_text(word, "update")
        || same_text(word, "using")
        || same_text(word, "vacuum")
        || same_text(word, "values")
        || same_text(word, "view")
        || same_text(word, "virtual")
        || same_text(word, "when")
        || same_text(word, "where")
        || same_text(word, "window")
        || same_text(word, "with")
        || same_text(word, "without")
}

/// A keyword has at least two characters, and each is a lower-case letter or
/// an underscore between two letters: none begins or ends with an underscore.
pub proof fn lemma_keyword_shape(word: Seq<char>)
    requires
        is_keyword(word),
    ensures
        word.len() >= 2,
        'a' <= word.first() <= 'z',
        'a' <= word.last() <= 'z',
        forall|i: int| 0 <= i < word.len() ==> ('a' <= #[trigger] word[i] <= 'z') || word[i] == '_',
{
    reveal_strlit("abort");
    reveal_strlit("action");
    reveal_strlit("add");
    reveal_strlit("after");
    reveal_strlit("all");
    reveal_strlit("alter");
    reveal_strlit("always");
    reveal_strlit("analyze");
    reveal_strlit("and");
    reveal_strlit("as");
    reveal_strlit("asc");
    reveal_strlit("attach");
    reveal_strlit("autoincrement");
    reveal_strlit("before");
    reveal_strlit("begin");
    reveal_strlit("between");
    reveal_strlit("by");
    reveal_strlit("cascade");
    reveal_strlit("case");
    reveal_strlit("cast");
    reveal_strlit("check");
    reveal_strlit("collate");
    reveal_strlit("column");
    reveal_strlit("commit");
    reveal_strlit("conflict");
    reveal_strlit("constraint");
    reveal_strlit("create");
    reveal_strlit("cross");
    reveal_strlit("current");
    reveal_strlit("current_date");
    reveal_strlit("current_time");
    reveal_strlit("current_timestamp");
    reveal_strlit("database");
    reveal_strlit("default");
    reveal_strlit("deferrable");
    reveal_strlit("deferred");
    reveal_strlit("delete");
    reveal_strlit("desc");
    reveal_strlit("detach");
    reveal_strlit("distinct");
    reveal_strlit("do");
    reveal_strlit("drop");
    reveal_strlit("each");
    reveal_strlit("else");
    reveal_strlit("end");
    reveal_strlit("escape");
    reveal_strlit("except");
    reveal_strlit("exclude");
    reveal_strlit("exclusive");
    reveal_strlit("exists");
    reveal_strlit("explain");
    reveal_strlit("fail");
    reveal_strlit("filter");
    reveal_strlit("first");
    reveal_strlit("following");
    reveal_strlit("for");
    reveal_strlit("foreign");
    reveal_strlit("from");
    reveal_strlit("full");
    reveal_strlit("generated");
    reveal_strlit("glob");
    reveal_strlit("group");
    reveal_strlit("groups");
    reveal_strlit("having");
    reveal_strlit("if");
    reveal_strlit("ignore");
    reveal_strlit("immediate");
    reveal_strlit("in");
    reveal_strlit("index");
    reveal_strlit("indexed");
    reveal_strlit("initially");
    reveal_strlit("inner");
    reveal_strlit("insert");
    reveal_strlit("instead");
    reveal_strlit("intersect");
    reveal_strlit("into");
    reveal_strlit("is");
    reveal_strlit("isnull");
    reveal_strlit("join");
    reveal_strlit("key");
    reveal_strlit("last");
    reveal_strlit("left");
    reveal_strlit("like");
    reveal_strlit("limit");
    reveal_strlit("match");
    reveal_strlit("materialized");
    reveal_strlit("natural");
    reveal_strlit("no");
    reveal_strlit("not");
    reveal_strlit("nothing");
    reveal_strlit("notnull");
    reveal_strlit("null");
    reveal_strlit("nulls");
    reveal_strlit("of");
    reveal_strlit("offset");
    reveal_strlit("on");
    reveal_strlit("or");
    reveal_strlit("order");
    reveal_strlit("others");
    reveal_strlit("outer");
    reveal_strlit("over");
    reveal_strlit("partition");
    reveal_strlit("plan");
    reveal_strlit("pragma");
    reveal_strlit("preceding");
    reveal_strlit("primary");
    reveal_strlit("query");
    reveal_strlit("raise");
    reveal_strlit("range");
    reveal_strlit("recursive");
    reveal_strlit("references");
    reveal_strlit("regexp");
    reveal_strlit("reindex");
    reveal_strlit("release");
    reveal_strlit("rename");
    reveal_strlit("replace");
    reveal_strlit("restrict");
    reveal_strlit("returning");
    reveal_strlit("right");
    reveal_strlit("rollback");
    reveal_strlit("row");
    reveal_strlit("rows");
    reveal_strlit("savepoint");
    reveal_strlit("select");
    reveal_strlit("set");
    reveal_strlit("table");
    reveal_strlit("temp");
    reveal_strlit("temporary");
    reveal_strlit("then");
    reveal_strlit("ties");
    reveal_strlit("to");
    reveal_strlit("transaction");
    reveal_strlit("trigger");
    reveal_strlit("unbounded");
    reveal_strlit("union");
    reveal_strlit("unique");
    reveal_strlit("update");
    reveal_strlit("using");
    reveal_strlit("vacuum");
    reveal_strlit("values");
    reveal_strlit("view");
    reveal_strlit("virtual");
    reveal_strlit("when");
    reveal_strlit("where");
    reveal_strlit("window");
    reveal_strlit("with");
    reveal_strlit("without");
}

} // verus!
