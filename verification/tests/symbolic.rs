use decompiler::expressions::variables::resolve_variables;
use decompiler::expressions::variables::ResolveVariables;
use decompiler::symbolic::context::Context as ExprContext;
use decompiler::symbolic::expr::Expr;
use decompiler::symbolic::expr_ref::ExprRef;
use decompiler::symbolic::numbered::NumberedContext;
use decompiler::symbolic::numbered::NumberedVariable;
use decompiler::symbolic::variable::NoNamedVariables;

type Context = ExprContext<NumberedVariable<NoNamedVariables>>;

/// A variable without a name: the numbered variable with the given number.
fn anonymous_variable(number: usize) -> NumberedVariable<NoNamedVariables> {
    NumberedVariable::Numbered(number)
}

#[test]
fn literal_dedupes() {
    let mut ctx = Context::new();
    let five_a = ctx.literal_expr(5);
    let five_b = ctx.literal_expr(5);
    assert_eq!(five_a, five_b);
}

#[test]
fn symbol_dedupes() {
    let mut ctx = Context::new();
    let vx = anonymous_variable(0);
    let x_a = ctx.variable_expr(vx);
    let x_b = ctx.variable_expr(vx);
    assert_eq!(x_a, x_b);
}

#[test]
fn double_not_cancels() {
    let mut ctx = Context::new();
    let vx = anonymous_variable(0);
    let x = ctx.variable_expr(vx);
    let not_x = ctx.not_expr(x);
    let not_not_x = ctx.not_expr(not_x);
    assert_eq!(x, not_not_x);
}

#[test]
fn not_literal() {
    let mut ctx = Context::new();
    let literal = ctx.literal_expr(0x87654321);
    let inv_literal = ctx.literal_expr(0x789abcde);
    let not_literal = ctx.not_expr(literal);
    assert_eq!(inv_literal, not_literal);
}

#[test]
fn add_none_is_zero() {
    let mut ctx = Context::new();
    let zero = ctx.literal_expr(0);
    let sum = ctx.add_expr(vec![]);
    assert_eq!(zero, sum);
}

#[test]
fn add_singleton_reduces() {
    let mut ctx = Context::new();
    let vx = anonymous_variable(0);
    let x = ctx.variable_expr(vx);
    let sum = ctx.add_expr(vec![x]);
    assert_eq!(x, sum);
}

#[test]
fn add_is_order_independent() {
    let mut ctx = Context::new();
    let vx = anonymous_variable(0);
    let vy = anonymous_variable(1);
    let x = ctx.variable_expr(vx);
    let y = ctx.variable_expr(vy);
    let sum_a = ctx.add_expr(vec![x, y]);
    let sum_b = ctx.add_expr(vec![y, x]);
    assert_eq!(sum_a, sum_b);
}

#[test]
fn add_folds_literals() {
    let mut ctx = Context::new();
    let vx = anonymous_variable(0);
    let vy = anonymous_variable(1);
    let x = ctx.variable_expr(vx);
    let y = ctx.variable_expr(vy);
    let three = ctx.literal_expr(3);
    let five = ctx.literal_expr(5);
    let eight = ctx.literal_expr(8);
    let sum_a = ctx.add_expr(vec![x, y, three, five]);
    let sum_b = ctx.add_expr(vec![x, y, eight]);
    assert_eq!(sum_a, sum_b);
}

#[test]
fn add_drops_zero() {
    let mut ctx = Context::new();
    let vx = anonymous_variable(0);
    let x = ctx.variable_expr(vx);
    let zero = ctx.literal_expr(0);
    let sum = ctx.add_expr(vec![x, zero]);
    assert_eq!(x, sum);
}

#[test]
fn add_flattens() {
    let mut ctx = Context::new();
    let vx = anonymous_variable(0);
    let vy = anonymous_variable(1);
    let vz = anonymous_variable(2);
    let x = ctx.variable_expr(vx);
    let y = ctx.variable_expr(vy);
    let z = ctx.variable_expr(vz);
    let xy = ctx.add_expr(vec![x, y]);
    let xyz_a = ctx.add_expr(vec![xy, z]);
    let xyz_b = ctx.add_expr(vec![x, y, z]);
    assert_eq!(xyz_a, xyz_b);
}

#[test]
fn mul_none_is_one() {
    let mut ctx = Context::new();
    let one = ctx.literal_expr(1);
    let product = ctx.mul_expr(vec![]);
    assert_eq!(one, product);
}

#[test]
fn mul_singleton_reduces() {
    let mut ctx = Context::new();
    let vx = anonymous_variable(0);
    let x = ctx.variable_expr(vx);
    let product = ctx.mul_expr(vec![x]);
    assert_eq!(x, product);
}

#[test]
fn mul_is_order_independent() {
    let mut ctx = Context::new();
    let vx = anonymous_variable(0);
    let vy = anonymous_variable(1);
    let x = ctx.variable_expr(vx);
    let y = ctx.variable_expr(vy);
    let product_a = ctx.mul_expr(vec![x, y]);
    let product_b = ctx.mul_expr(vec![y, x]);
    assert_eq!(product_a, product_b);
}

#[test]
fn mul_folds_literals() {
    let mut ctx = Context::new();
    let vx = anonymous_variable(0);
    let vy = anonymous_variable(1);
    let x = ctx.variable_expr(vx);
    let y = ctx.variable_expr(vy);
    let three = ctx.literal_expr(3);
    let five = ctx.literal_expr(5);
    let fifteen = ctx.literal_expr(15);
    let product_a = ctx.mul_expr(vec![x, y, three, five]);
    let product_b = ctx.mul_expr(vec![x, y, fifteen]);
    assert_eq!(product_a, product_b);
}

#[test]
fn mul_drops_one() {
    let mut ctx = Context::new();
    let vx = anonymous_variable(0);
    let x = ctx.variable_expr(vx);
    let one = ctx.literal_expr(1);
    let product = ctx.mul_expr(vec![x, one]);
    assert_eq!(x, product);
}

#[test]
fn mul_zero_dominates() {
    let mut ctx = Context::new();
    let vx = anonymous_variable(0);
    let x = ctx.variable_expr(vx);
    let zero = ctx.literal_expr(0);
    let product = ctx.mul_expr(vec![x, zero]);
    assert_eq!(zero, product);
}

#[test]
fn mul_flattens() {
    let mut ctx = Context::new();
    let vx = anonymous_variable(0);
    let vy = anonymous_variable(1);
    let vz = anonymous_variable(2);
    let x = ctx.variable_expr(vx);
    let y = ctx.variable_expr(vy);
    let z = ctx.variable_expr(vz);
    let xy = ctx.mul_expr(vec![x, y]);
    let xyz_a = ctx.mul_expr(vec![xy, z]);
    let xyz_b = ctx.mul_expr(vec![x, y, z]);
    assert_eq!(xyz_a, xyz_b);
}

fn operands(ctx: &Context, e: ExprRef) -> Vec<ExprRef> {
    ctx.get_expr_leaves(e)
}

#[test]
fn references_count_up_from_zero() {
    let mut ctx = Context::new();
    assert_eq!(ctx.len(), 0);
    let a = ctx.literal_expr(7);
    let b = ctx.literal_expr(9);
    assert_eq!(a.to_raw(), 0);
    assert_eq!(b.to_raw(), 1);
    assert_eq!(ExprRef::from_raw(1), b);
    assert_eq!(ctx.len(), 2);
    assert_eq!(ctx.literal_value(a), Some(7));
    assert!(!ctx.is_variable(a));
}

#[test]
fn interning_gives_equal_nodes_equal_references() {
    let mut ctx = Context::new();
    let x = ctx.variable_expr(anonymous_variable(0));
    let y = ctx.variable_expr(anonymous_variable(1));
    let three = ctx.literal_expr(3);
    // The same sum in three ways.
    let a = ctx.add_expr(vec![x, y, three]);
    let one = ctx.literal_expr(1);
    let two = ctx.literal_expr(2);
    let xy = ctx.add_expr(vec![y, x]);
    let b = ctx.add_expr(vec![one, xy, two]);
    let x_one = ctx.add_expr(vec![x, one]);
    let y_two = ctx.add_expr(vec![two, y]);
    let c = ctx.add_expr(vec![x_one, y_two]);
    assert_eq!(a, b);
    assert_eq!(a, c);
    let size = ctx.len();
    let d = ctx.add_expr(vec![three, y, x]);
    assert_eq!(a, d);
    assert_eq!(ctx.len(), size);
    let r1 = ctx.read_expr(a);
    let r2 = ctx.read_expr(d);
    assert_eq!(r1, r2);
}

#[test]
fn add_wraps_around() {
    let mut ctx = Context::new();
    let big = ctx.literal_expr(0xffff_fff0);
    let small = ctx.literal_expr(0x20);
    let sum = ctx.add_expr(vec![big, small]);
    assert_eq!(ctx.literal_value(sum), Some(0x10));
    // Literals that add up to zero vanish.
    let x = ctx.variable_expr(anonymous_variable(0));
    let minus = ctx.literal_expr(0xffff_ffe0);
    let back = ctx.add_expr(vec![x, small, minus]);
    assert_eq!(back, x);
}

#[test]
fn add_keeps_its_terms_in_order() {
    let mut ctx = Context::new();
    let x = ctx.variable_expr(anonymous_variable(0));
    let y = ctx.variable_expr(anonymous_variable(1));
    let sum = ctx.add_expr(vec![y, x, y]);
    assert_eq!(operands(&ctx, sum), vec![x, y, y]);
    let five = ctx.literal_expr(5);
    let with_literal = ctx.add_expr(vec![five, sum]);
    assert_eq!(operands(&ctx, with_literal), vec![x, y, y, five]);
}

#[test]
fn mul_wraps_around() {
    let mut ctx = Context::new();
    let a = ctx.literal_expr(0x10000);
    let b = ctx.literal_expr(0x10001);
    let product = ctx.mul_expr(vec![a, b]);
    assert_eq!(ctx.literal_value(product), Some(0x10000));
    // A product of literals that is zero modulo 2^32 is the literal 0.
    let x = ctx.variable_expr(anonymous_variable(0));
    let zero = ctx.mul_expr(vec![x, a, a]);
    assert_eq!(ctx.literal_value(zero), Some(0));
}

#[test]
fn phi_flattens_and_sorts() {
    let mut ctx = Context::new();
    let x = ctx.variable_expr(anonymous_variable(0));
    let y = ctx.variable_expr(anonymous_variable(1));
    let z = ctx.variable_expr(anonymous_variable(2));
    let yx = ctx.phi_expr(vec![y, x]);
    assert_eq!(operands(&ctx, yx), vec![x, y]);
    let all = ctx.phi_expr(vec![z, yx]);
    assert_eq!(operands(&ctx, all), vec![x, y, z]);
    let direct = ctx.phi_expr(vec![x, z, y]);
    assert_eq!(all, direct);
    // A φ of one alternative stays a φ.
    let single = ctx.phi_expr(vec![x]);
    assert!(single != x);
    assert_eq!(operands(&ctx, single), vec![x]);
}

#[test]
fn bit_or_and_bit_and_dedupe() {
    let mut ctx = Context::new();
    let x = ctx.variable_expr(anonymous_variable(0));
    let y = ctx.variable_expr(anonymous_variable(1));
    assert_eq!(ctx.bit_or_expr(vec![x, x]), x);
    assert_eq!(ctx.bit_and_expr(vec![y, y, y]), y);
    let or_a = ctx.bit_or_expr(vec![y, x, y]);
    let or_b = ctx.bit_or_expr(vec![x, y]);
    assert_eq!(or_a, or_b);
    assert_eq!(operands(&ctx, or_a), vec![x, y]);
    let and = ctx.bit_and_expr(vec![y, x]);
    assert!(and != or_a);
    assert_eq!(operands(&ctx, and), vec![x, y]);
}

#[test]
fn comparisons_fold() {
    let mut ctx = Context::new();
    let x = ctx.variable_expr(anonymous_variable(0));
    let y = ctx.variable_expr(anonymous_variable(1));
    let zero = ctx.literal_expr(0);
    let one = ctx.literal_expr(1);
    let minus_one = ctx.literal_expr(0xffff_ffff);
    assert_eq!(ctx.equal_expr(x, x), one);
    assert_eq!(ctx.equal_expr(one, minus_one), zero);
    let xy = ctx.equal_expr(x, y);
    let yx = ctx.equal_expr(y, x);
    assert_eq!(xy, yx);
    assert_eq!(operands(&ctx, xy), vec![x, y]);
    assert_eq!(ctx.less_signed_expr(x, x), zero);
    assert_eq!(ctx.less_unsigned_expr(y, y), zero);
    // -1 < 1 when signed, but not when unsigned.
    assert_eq!(ctx.less_signed_expr(minus_one, one), one);
    assert_eq!(ctx.less_signed_expr(one, minus_one), zero);
    assert_eq!(ctx.less_unsigned_expr(minus_one, one), zero);
    assert_eq!(ctx.less_unsigned_expr(one, minus_one), one);
    let lt = ctx.less_signed_expr(x, y);
    let gt = ctx.less_signed_expr(y, x);
    assert!(lt != gt);
    assert_eq!(operands(&ctx, lt), vec![x, y]);
    assert_eq!(operands(&ctx, gt), vec![y, x]);
}

#[test]
fn not_of_not_of_literal() {
    let mut ctx = Context::new();
    let five = ctx.literal_expr(5);
    let not_five = ctx.not_expr(five);
    assert_eq!(ctx.literal_value(not_five), Some(0xffff_fffa));
    assert_eq!(ctx.not_expr(not_five), five);
}

#[test]
fn assignments_override() {
    let mut ctx = Context::new();
    let x = ctx.variable_expr(anonymous_variable(0));
    let one = ctx.literal_expr(1);
    let two = ctx.literal_expr(2);
    assert_eq!(ctx.get_variable_assignment(x), None);
    ctx.assign_variable(x, one);
    assert_eq!(ctx.get_variable_assignment(x), Some(one));
    ctx.assign_variable(x, two);
    assert_eq!(ctx.get_variable_assignment(x), Some(two));
}

#[test]
fn variables_are_listed_in_order() {
    let mut ctx = Context::new();
    let x = ctx.variable_expr(anonymous_variable(4));
    let _ = ctx.literal_expr(1);
    let y = ctx.variable_expr(anonymous_variable(2));
    let variables = ctx.iter_variables();
    assert_eq!(variables.len(), 2);
    assert_eq!(variables[0].0, x);
    assert_eq!(*variables[0].1, anonymous_variable(4));
    assert_eq!(variables[1].0, y);
    assert_eq!(*variables[1].1, anonymous_variable(2));
    assert!(matches!(ctx.get_expr(x), Expr::Variable(NumberedVariable::Numbered(4))));
}

#[test]
fn numbered_variables_are_new() {
    let mut ctx: NumberedContext<NoNamedVariables> = NumberedContext::new();
    let a = ctx.next_numbered_variable_expr();
    let b = ctx.next_numbered_variable_expr();
    assert!(a != b);
    assert!(matches!(ctx.get_expr(a), Expr::Variable(NumberedVariable::Numbered(0))));
    assert!(matches!(ctx.get_expr(b), Expr::Variable(NumberedVariable::Numbered(1))));
    let sum = ctx.add_expr(vec![b, a]);
    assert_eq!(ctx.get_expr_leaves(sum), vec![a, b]);
    assert_eq!(ctx.inner().expr_string(sum), "add(v_0, v_1)");
}

#[test]
fn map_leaves_rebuilds_in_normal_form() {
    let mut ctx = Context::new();
    let x = ctx.variable_expr(anonymous_variable(0));
    let y = ctx.variable_expr(anonymous_variable(1));
    let z = ctx.variable_expr(anonymous_variable(2));
    let three = ctx.literal_expr(3);
    let one = ctx.literal_expr(1);
    let sum = ctx.add_expr(vec![x, y, three]);
    let not_sum = ctx.not_expr(sum);
    ctx.assign_variable(x, one);
    ctx.assign_variable(y, x);
    // 1 + 1 + 3 = 5
    let mapped_sum = ctx.map_leaves(sum, &ResolveVariables, 8).unwrap();
    assert_eq!(ctx.literal_value(mapped_sum), Some(5));
    // !(1 + 1 + 3) = !5
    let mapped_not = ctx.map_leaves(not_sum, &ResolveVariables, 8).unwrap();
    assert_eq!(ctx.literal_value(mapped_not), Some(!5u32));
    // A leaf is mapped once.
    assert_eq!(ctx.map_leaves(y, &ResolveVariables, 0), Some(one));
    assert_eq!(ctx.map_leaves(z, &ResolveVariables, 0), Some(z));
    // The depth does not suffice for the sum inside the complement.
    assert_eq!(ctx.map_leaves(not_sum, &ResolveVariables, 1), None);
    assert_eq!(ctx.map_leaves(sum, &ResolveVariables, 0), None);
    let read = ctx.read_expr(x);
    let mapped_read = ctx.map_leaves(read, &ResolveVariables, 1).unwrap();
    assert_eq!(ctx.get_expr_leaves(mapped_read), vec![one]);
    assert!(matches!(ctx.get_expr(mapped_read), Expr::Read(_)));
    // What a variable stands for is rewritten in turn.
    ctx.assign_variable(z, sum);
    let mapped_z = ctx.map_leaves(z, &ResolveVariables, 8).unwrap();
    assert_eq!(mapped_z, mapped_sum);
}

#[test]
fn resolving_stops_at_a_variable_that_stands_for_itself() {
    let mut ctx = Context::new();
    let x = ctx.variable_expr(anonymous_variable(0));
    let y = ctx.variable_expr(anonymous_variable(1));
    let z = ctx.variable_expr(anonymous_variable(2));
    let five = ctx.literal_expr(5);
    assert_eq!(resolve_variables(&ctx, x), x);
    assert_eq!(resolve_variables(&ctx, five), five);
    ctx.assign_variable(x, x);
    assert_eq!(resolve_variables(&ctx, x), x);
    ctx.assign_variable(y, x);
    assert_eq!(resolve_variables(&ctx, y), x);
    ctx.assign_variable(x, five);
    assert_eq!(resolve_variables(&ctx, y), five);
    // Round in a circle: the walk ends all the same.
    ctx.assign_variable(x, z);
    ctx.assign_variable(z, y);
    let end = resolve_variables(&ctx, x);
    assert!(end == x || end == y || end == z);
}

#[test]
fn expressions_as_text() {
    let mut ctx = Context::new();
    let x = ctx.variable_expr(anonymous_variable(0));
    let five = ctx.literal_expr(5);
    let sum = ctx.add_expr(vec![five, x]);
    let read = ctx.read_expr(sum);
    let not = ctx.not_expr(read);
    let phi = ctx.phi_expr(vec![not, x]);
    let mul = ctx.mul_expr(vec![x, x]);
    let or = ctx.bit_or_expr(vec![x, five]);
    let and = ctx.bit_and_expr(vec![x, five]);
    let eq = ctx.equal_expr(x, five);
    let lt = ctx.less_signed_expr(x, five);
    let ltu = ctx.less_unsigned_expr(five, x);
    assert_eq!(ctx.expr_string(five), "0x00000005");
    assert_eq!(ctx.expr_string(x), "v_0");
    assert_eq!(ctx.expr_string(sum), "add(v_0, 0x00000005)");
    assert_eq!(ctx.expr_string(read), "read(add(v_0, 0x00000005))");
    assert_eq!(ctx.expr_string(not), "not(read(add(v_0, 0x00000005)))");
    assert_eq!(ctx.expr_string(phi), "phi(v_0, not(read(add(v_0, 0x00000005))))");
    assert_eq!(ctx.expr_string(mul), "mul(v_0, v_0)");
    assert_eq!(ctx.expr_string(or), "bit_or(v_0, 0x00000005)");
    assert_eq!(ctx.expr_string(and), "bit_and(v_0, 0x00000005)");
    assert_eq!(ctx.expr_string(eq), "equal(v_0, 0x00000005)");
    assert_eq!(ctx.expr_string(lt), "less_i(v_0, 0x00000005)");
    assert_eq!(ctx.expr_string(ltu), "less_u(0x00000005, v_0)");
    assert_eq!(ctx.display_expr(sum).to_string(), "add(v_0, 0x00000005)");
}

#[test]
fn default_context_is_empty() {
    let mut ctx = Context::default();
    assert_eq!(ctx.len(), 0);
    let five = ctx.literal_expr(5);
    assert_eq!(five, ExprRef::from_raw(0));
    assert_eq!(ctx.len(), 1);
}

#[test]
fn default_numbered_context_starts_at_zero() {
    let mut ctx: NumberedContext<NoNamedVariables> = NumberedContext::default();
    assert_eq!(ctx.inner().len(), 0);
    let first = ctx.next_numbered_variable_expr();
    assert!(matches!(ctx.inner().get_expr(first), Expr::Variable(NumberedVariable::Numbered(0))));
}
