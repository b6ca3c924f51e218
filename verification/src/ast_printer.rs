use vstd::prelude::*;
use crate::error::SaturdayResult;
use crate::expr::Expr;

verus! {

/// Writes an expression in prefix form, every operation in parentheses.
pub struct AstPrinter;

/// The prefix form of an expression.
pub open spec fn printed(e: Expr) -> Seq<char>
    decreases e,
{
    match e {
        Expr::Assign(x) => "(= "@ + x.name.lexeme@ + " "@ + printed(*x.value) + ")"@,
        Expr::Binary(x) => "("@ + x.operator.lexeme@ + " "@ + printed(*x.left) + " "@ + printed(
            *x.right,
        ) + ")"@,
        Expr::Call(x) => "(call "@ + printed(*x.callee) + printed_list(x.arguments@) + ")"@,
        Expr::Grouping(x) => "(group "@ + printed(*x.expression) + ")"@,
        Expr::Literal(x) => match x.value {
            Some(value) => value.text(),
            None => "nil"@,
        },
        Expr::Logical(x) => "("@ + x.operator.lexeme@ + " "@ + printed(*x.left) + " "@ + printed(
            *x.right,
        ) + ")"@,
        Expr::Unary(x) => "("@ + x.operator.lexeme@ + " "@ + printed(*x.right) + ")"@,
        Expr::Variable(x) => x.name.lexeme@,
    }
}

/// The prefix forms of the expressions of a list, a blank before each.
pub open spec fn printed_list(es: Seq<Expr>) -> Seq<char>
    decreases es,
{
    if es.len() == 0 {
        Seq::empty()
    } else {
        printed_list(es.drop_last()) + " "@ + printed(es.last())
    }
}

/// `name` and the written `parts`, a blank before each part, in parentheses.
pub open spec fn parenthesized(name: Seq<char>, parts: Seq<Seq<char>>) -> Seq<char> {
    "("@ + name + spaced(parts) + ")"@
}

/// The written parts, a blank before each.
pub open spec fn spaced(parts: Seq<Seq<char>>) -> Seq<char>
    decreases parts.len(),
{
    if parts.len() == 0 {
        Seq::empty()
    } else {
        spaced(parts.drop_last()) + " "@ + parts.last()
    }
}

impl AstPrinter {
    /// Writes the expression. The result is always `Ok`.
    pub fn print(&self, expr: &Expr) -> (r: Result<String, SaturdayResult>)
        ensures
            r matches Ok(s) && s@ == printed(*expr),
        decreases expr,
    {
        match expr {
            Expr::Assign(x) => {
                let mut s = String::from_str("(= ");
                s.append(x.name.lexeme.as_str());
                s.append(" ");
                match self.print(&x.value) {
                    Ok(v) => {
                        s.append(v.as_str());
                    },
                    Err(e) => {
                        return Err(e);
                    },
                }
                s.append(")");
                Ok(s)
            },
            Expr::Binary(x) => {
                let left = match self.print(&x.left) {
                    Ok(v) => v,
                    Err(e) => {
                        return Err(e);
                    },
                };
                let right = match self.print(&x.right) {
                    Ok(v) => v,
                    Err(e) => {
                        return Err(e);
                    },
                };
                let mut parts: Vec<String> = Vec::new();
                parts.push(left);
                parts.push(right);
                let r = self.parenthesize(&x.operator.lexeme, &parts);
                proof {
                    lemma_spaced_two(parts@[0]@, parts@[1]@);
                    assert(texts(parts@) =~= seq![parts@[0]@, parts@[1]@]);
                    assert(printed(*expr) =~= parenthesized(x.operator.lexeme@, texts(parts@)));
                }
                r
            },
            Expr::Call(x) => {
                let mut s = String::from_str("(call ");
                match self.print(&x.callee) {
                    Ok(v) => {
                        s.append(v.as_str());
                    },
                    Err(e) => {
                        return Err(e);
                    },
                }
                let ghost head = s@;
                let mut i: usize = 0;
                while i < x.arguments.len()
                    invariant
                        i <= x.arguments@.len(),
                        *expr == Expr::Call(*x),
                        s@ == head + printed_list(x.arguments@.subrange(0, i as int)),
                    decreases x.arguments@.len() - i,
                {
                    s.append(" ");
                    assert((*expr)->Call_0 == *x);
                    assert(decreases_to!(*expr => (*expr)->Call_0.arguments@[i as int]));
                    match self.print(&x.arguments[i]) {
                        Ok(v) => {
                            s.append(v.as_str());
                        },
                        Err(e) => {
                            return Err(e);
                        },
                    }
                    proof {
                        let next = x.arguments@.subrange(0, i + 1);
                        assert(next.drop_last() =~= x.arguments@.subrange(0, i as int));
                        assert(next.last() == x.arguments@[i as int]);
                    }
                    i = i + 1;
                }
                assert(x.arguments@.subrange(0, i as int) =~= x.arguments@);
                s.append(")");
                Ok(s)
            },
            Expr::Grouping(x) => {
                let inner = match self.print(&x.expression) {
                    Ok(v) => v,
                    Err(e) => {
                        return Err(e);
                    },
                };
                let mut parts: Vec<String> = Vec::new();
                parts.push(inner);
                let name = String::from_str("group");
                let r = self.parenthesize(&name, &parts);
                proof {
                    lemma_spaced_one(parts@[0]@);
                    assert(texts(parts@) =~= seq![parts@[0]@]);
                    reveal_strlit("(group ");
                    reveal_strlit("(");
                    reveal_strlit("group");
                    reveal_strlit(" ");
                    assert("(group "@ =~= "("@ + "group"@ + " "@);
                    assert(printed(*expr) =~= parenthesized("group"@, texts(parts@)));
                }
                r
            },
            Expr::Literal(x) => match &x.value {
                Some(value) => Ok(value.to_string()),
                None => Ok(String::from_str("nil")),
            },
            Expr::Logical(x) => {
                let left = match self.print(&x.left) {
                    Ok(v) => v,
                    Err(e) => {
                        return Err(e);
                    },
                };
                let right = match self.print(&x.right) {
                    Ok(v) => v,
                    Err(e) => {
                        return Err(e);
                    },
                };
                let mut parts: Vec<String> = Vec::new();
                parts.push(left);
                parts.push(right);
                let r = self.parenthesize(&x.operator.lexeme, &parts);
                proof {
                    lemma_spaced_two(parts@[0]@, parts@[1]@);
                    assert(texts(parts@) =~= seq![parts@[0]@, parts@[1]@]);
                    assert(printed(*expr) =~= parenthesized(x.operator.lexeme@, texts(parts@)));
                }
                r
            },
            Expr::Unary(x) => {
                let right = match self.print(&x.right) {
                    Ok(v) => v,
                    Err(e) => {
                        return Err(e);
                    },
                };
                let mut parts: Vec<String> = Vec::new();
                parts.push(right);
                let r = self.parenthesize(&x.operator.lexeme, &parts);
                proof {
                    lemma_spaced_one(parts@[0]@);
                    assert(texts(parts@) =~= seq![parts@[0]@]);
                    assert(printed(*expr) =~= parenthesized(x.operator.lexeme@, texts(parts@)));
                }
                r
            },
            Expr::Variable(x) => Ok(x.name.lexeme.clone()),
        }
    }

    /// Puts `name` and the written operands `parts` in parentheses, a blank
    /// before each operand. The result is always `Ok`.
    pub fn parenthesize(&self, name: &String, parts: &Vec<String>) -> (r: Result<
        String,
        SaturdayResult,
    >)
        ensures
            r matches Ok(s) && s@ == parenthesized(name@, texts(parts@)),
    {
        let mut builder = String::from_str("(");
        builder.append(name.as_str());
        let mut i: usize = 0;
        while i < parts.len()
            invariant
                i <= parts@.len(),
                builder@ == "("@ + name@ + spaced(texts(parts@).subrange(0, i as int)),
            decreases parts@.len() - i,
        {
            builder.append(" ");
            builder.append(parts[i].as_str());
            proof {
                let next = texts(parts@).subrange(0, i + 1);
                assert(next.drop_last() =~= texts(parts@).subrange(0, i as int));
                assert(next.last() == parts@[i as int]@);
            }
            i = i + 1;
        }
        assert(texts(parts@).subrange(0, i as int) =~= texts(parts@));
        builder.append(")");
        Ok(builder)
    }
}

/// The texts of a list of strings.
pub open spec fn texts(parts: Seq<String>) -> Seq<Seq<char>> {
    Seq::new(parts.len(), |k: int| parts[k]@)
}

proof fn lemma_spaced_one(a: Seq<char>)
    ensures
        spaced(seq![a]) == " "@ + a,
{
    assert(seq![a].drop_last() =~= Seq::<Seq<char>>::empty());
    assert(spaced(Seq::<Seq<char>>::empty()) =~= Seq::<char>::empty());
    assert(seq![a].last() == a);
    assert(spaced(seq![a]) =~= " "@ + a);
}

proof fn lemma_spaced_two(a: Seq<char>, b: Seq<char>)
    ensures
        spaced(seq![a, b]) == " "@ + a + " "@ + b,
{
    lemma_spaced_one(a);
    assert(seq![a, b].drop_last() =~= seq![a]);
    assert(spaced(seq![a, b]) =~= " "@ + a + " "@ + b);
}

} // verus!
