//! The statement that gives the sync role its password.

use vstd::prelude::*;
use vstd::string::*;

verus! {

/// `text` with every single quote written twice.
pub open spec fn doubled_quotes(text: Seq<char>) -> Seq<char>
    decreases text.len(),
{
    if text.len() == 0 {
        Seq::empty()
    } else if text.last() == '\'' {
        doubled_quotes(text.drop_last()).push('\'').push('\'')
    } else {
        doubled_quotes(text.drop_last()).push(text.last())
    }
}

/// The statement that sets the password of the role `electric_sync`.
pub open spec fn role_statement(password: Seq<char>) -> Seq<char> {
    "ALTER ROLE electric_sync WITH PASSWORD '"@ + doubled_quotes(password) + "'"@
}

/// A text without a single quote is left as it is.
pub proof fn lemma_unquoted_unchanged(text: Seq<char>)
    requires
        !text.contains('\''),
    ensures
        doubled_quotes(text) == text,
    decreases text.len(),
{
    if text.len() > 0 {
        let front = text.drop_last();
        assert(text[text.len() - 1] == text.last());
        assert forall|i: int| 0 <= i < front.len() implies front[i] != '\'' by {
            assert(front[i] == text[i]);
        }
        lemma_unquoted_unchanged(front);
        assert(front.push(text.last()) =~= text);
    }
}

/// What a text between single quotes stands for where two single quotes in
/// a row stand for one. A single quote that stands alone would end the
/// quoted text early: then there is no value.
pub open spec fn quoted_value(body: Seq<char>) -> Option<Seq<char>>
    decreases body.len(),
{
    if body.len() == 0 {
        Some(Seq::empty())
    } else if body[0] != '\'' {
        match quoted_value(body.drop_first()) {
            Some(rest) => Some(seq![body[0]] + rest),
            None => None,
        }
    } else if body.len() >= 2 && body[1] == '\'' {
        match quoted_value(body.subrange(2, body.len() as int)) {
            Some(rest) => Some(seq!['\''] + rest),
            None => None,
        }
    } else {
        None
    }
}

/// Doubling the quotes of two texts in a row is doubling them in each.
pub proof fn lemma_doubled_concat(a: Seq<char>, b: Seq<char>)
    ensures
        doubled_quotes(a + b) == doubled_quotes(a) + doubled_quotes(b),
    decreases b.len(),
{
    if b.len() == 0 {
        assert(a + b =~= a);
        assert(doubled_quotes(a) + doubled_quotes(b) =~= doubled_quotes(a));
    } else {
        assert((a + b).drop_last() =~= a + b.drop_last());
        assert((a + b).last() == b.last());
        lemma_doubled_concat(a, b.drop_last());
        assert(doubled_quotes(a + b) =~= doubled_quotes(a) + doubled_quotes(b));
    }
}

/// The escaped password stands for the password itself: no quote in it ends
/// the quoted text early, and nothing is lost or added.
pub proof fn lemma_escaped_reads_back(text: Seq<char>)
    ensures
        quoted_value(doubled_quotes(text)) == Some(text),
    decreases text.len(),
{
    if text.len() > 0 {
        let head = seq![text[0]];
        let rest = text.drop_first();
        let body = doubled_quotes(text);
        assert(text =~= head + rest);
        lemma_doubled_concat(head, rest);
        lemma_escaped_reads_back(rest);
        assert(head.drop_last() =~= Seq::<char>::empty());
        assert(head.last() == text[0]);
        assert(doubled_quotes(head.drop_last()) =~= Seq::<char>::empty());
        if text[0] == '\'' {
            assert(doubled_quotes(head) =~= seq!['\'', '\'']);
            assert(body =~= seq!['\'', '\''] + doubled_quotes(rest));
            assert(body.subrange(2, body.len() as int) =~= doubled_quotes(rest));
            assert(seq!['\''] + rest =~= text);
        } else {
            assert(doubled_quotes(head) =~= seq![text[0]]);
            assert(body =~= seq![text[0]] + doubled_quotes(rest));
            assert(body.drop_first() =~= doubled_quotes(rest));
            assert(seq![body[0]] + rest =~= text);
        }
    }
}

/// Escapes `password` for a place between single quotes in a statement.
pub fn escape_password(password: &str) -> (escaped: String)
    ensures
        escaped@ == doubled_quotes(password@),
{
    let n: usize = password.unicode_len();
    let mut escaped = String::new();
    let mut i: usize = 0;
    assert(password@.subrange(0, 0) =~= Seq::<char>::empty());
    while i < n
        invariant
            i <= n,
            n == password@.len(),
            escaped@ == doubled_quotes(password@.subrange(0, i as int)),
        decreases n - i,
    {
        let c = password.get_char(i);
        proof {
            let upto = password@.subrange(0, i + 1);
            assert(upto.drop_last() =~= password@.subrange(0, i as int));
            assert(upto.last() == c);
        }
        if c == '\'' {
            proof {
                reveal_strlit("''");
            }
            escaped.append("''");
            assert(escaped@ =~= doubled_quotes(password@.subrange(0, i as int)).push('\'').push('\''));
        } else {
            let piece = password.substring_char(i, i + 1);
            escaped.append(piece);
            assert(piece@ =~= seq![c]);
            assert(escaped@ =~= doubled_quotes(password@.subrange(0, i as int)).push(c));
        }
        i += 1;
    }
    assert(password@.subrange(0, n as int) =~= password@);
    escaped
}

/// The statement that sets the sync role's password to `password`, or `None`
/// for the empty password, which leaves the role's credential as it is.
pub fn role_password_statement(password: &str) -> (statement: Option<String>)
    ensures
        statement is None <==> password@.len() == 0,
        statement matches Some(sql) ==> sql@ == role_statement(password@),
{
    if password.is_empty() {
        return None;
    }
    let escaped = escape_password(password);
    let mut sql = String::from_str("ALTER ROLE electric_sync WITH PASSWORD '");
    sql.append(escaped.as_str());
    sql.append("'");
    Some(sql)
}

} // verus!
