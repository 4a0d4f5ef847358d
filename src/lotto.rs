use rand::Rng;
use vstd::prelude::*;
use vstd::string::StringExecFns;
use crate::text::{decimal, number_u64, parse_number, push_decimal};

verus! {

/// How many of the values `0 .. n` occur in `used`.
pub open spec fn used_below(used: Seq<usize>, n: nat) -> nat
    decreases n,
{
    if n == 0 {
        0
    } else {
        used_below(used, (n - 1) as nat) + if used.contains((n - 1) as usize) {
            1nat
        } else {
            0nat
        }
    }
}

/// `nums` is a draw of `take` distinct values out of `0 ..= from`.
pub open spec fn valid_draw(take: nat, from: nat, nums: Seq<usize>) -> bool {
    &&& nums.len() == take
    &&& nums.no_duplicates()
    &&& forall|i: int| 0 <= i < nums.len() ==> nums[i] <= from
}

proof fn lemma_used_below_push(used: Seq<usize>, x: usize, n: nat)
    requires
        !used.contains(x),
        n <= usize::MAX + 1,
    ensures
        used_below(used.push(x), n) == used_below(used, n) + if x < n {
            1nat
        } else {
            0nat
        },
    decreases n,
{
    if n > 0 {
        lemma_used_below_push(used, x, (n - 1) as nat);
        let k = (n - 1) as usize;
        assert(used.push(x).contains(k) <==> (used.contains(k) || k == x)) by {
            if used.push(x).contains(k) {
                let i = choose|i: int| 0 <= i < used.push(x).len() && used.push(x)[i] == k;
                if i < used.len() {
                    assert(used[i] == k);
                }
            }
            if used.contains(k) {
                let i = choose|i: int| 0 <= i < used.len() && used[i] == k;
                assert(used.push(x)[i] == k);
            }
            if k == x {
                assert(used.push(x)[used.len() as int] == k);
            }
        }
    }
}

/// Distinct values all below `n` are counted once each.
proof fn lemma_used_below_all(used: Seq<usize>, n: nat)
    requires
        used.no_duplicates(),
        forall|i: int| 0 <= i < used.len() ==> used[i] < n,
        n <= usize::MAX + 1,
    ensures
        used_below(used, n) == used.len(),
    decreases used.len(),
{
    if used.len() > 0 {
        let init = used.drop_last();
        let x = used.last();
        assert(used == init.push(x));
        assert(!init.contains(x)) by {
            if init.contains(x) {
                let i = choose|i: int| 0 <= i < init.len() && init[i] == x;
                assert(used[i] == used[used.len() - 1]);
            }
        }
        assert forall|i: int, j: int|
            0 <= i < init.len() && 0 <= j < init.len() && i != j implies init[i] != init[j] by {
            assert(used[i] != used[j]);
        }
        lemma_used_below_all(init, n);
        lemma_used_below_push(init, x, n);
    } else {
        lemma_used_below_none(used, n);
    }
}

proof fn lemma_used_below_none(used: Seq<usize>, n: nat)
    requires
        used.len() == 0,
    ensures
        used_below(used, n) == 0,
    decreases n,
{
    if n > 0 {
        lemma_used_below_none(used, (n - 1) as nat);
    }
}

/// The count never exceeds `n`, and reaches it only when every value below `n` occurs.
proof fn lemma_used_below_full(used: Seq<usize>, n: nat)
    requires
        n <= usize::MAX + 1,
    ensures
        used_below(used, n) <= n,
        used_below(used, n) == n ==> forall|k: usize| k < n ==> used.contains(k),
    decreases n,
{
    if n > 0 {
        lemma_used_below_full(used, (n - 1) as nat);
    }
}

/// Whether `x` occurs in `v`.
fn holds(v: &Vec<usize>, x: usize) -> (r: bool)
    ensures
        r == v@.contains(x),
{
    let mut i: usize = 0;
    while i < v.len()
        invariant
            i <= v.len(),
            forall|j: int| 0 <= j < i ==> v@[j] != x,
        decreases v.len() - i,
    {
        if v[i] == x {
            return true;
        }
        i = i + 1;
    }
    false
}

/// The value of rank `r`, counting from zero, among those of `0 ..= from` that `used` lacks.
fn nth_unused(used: &Vec<usize>, from: usize, r: usize) -> (v: usize)
    requires
        used@.no_duplicates(),
        forall|i: int| 0 <= i < used@.len() ==> used@[i] <= from,
        r + used@.len() <= from,
    ensures
        v <= from,
        !used@.contains(v),
        v - used_below(used@, v as nat) == r,
{
    proof {
        lemma_used_below_all(used@, from as nat + 1);
    }
    let mut v: usize = 0;
    let mut seen: usize = 0;
    loop
        invariant
            v <= from,
            seen <= r,
            seen == v - used_below(used@, v as nat),
            used_below(used@, from as nat + 1) == used@.len(),
            r + used@.len() <= from,
        decreases from - v,
    {
        let fresh = !holds(used, v);
        if fresh && seen == r {
            return v;
        }
        proof {
            lemma_used_below_full(used@, v as nat);
        }
        if fresh {
            seen = seen + 1;
        }
        if v == from {
            proof {
                assert(seen == from + 1 - used@.len());
                assert(false);
            }
            return v;
        }
        v = v + 1;
    }
}

/// Relies on rand's `thread_rng().gen_range(0..=max)`: a value drawn from `0 ..= max`.
#[verifier::external_body]
fn random_up_to(max: usize) -> (r: usize)
    ensures
        r <= max,
{
    rand::thread_rng().gen_range(0..=max)
}

/// How many times a number drawn from the whole range may turn out to be drawn
/// already before the next one is drawn among the unused values alone.
pub const REDRAWS: u32 = 64;

/// Adds the drawn value `v` to `numbers` where it is not there yet; says
/// whether it did.
pub fn keep_if_new(numbers: &mut Vec<usize>, v: usize) -> (added: bool)
    ensures
        added == !old(numbers)@.contains(v),
        final(numbers)@ == if added {
            old(numbers)@.push(v)
        } else {
            old(numbers)@
        },
        old(numbers)@.no_duplicates() ==> final(numbers)@.no_duplicates(),
{
    if holds(numbers, v) {
        return false;
    }
    proof {
        let p = numbers@.push(v);
        assert forall|i: int, j: int|
            0 <= i < p.len() && 0 <= j < p.len() && i != j && numbers@.no_duplicates()
                implies p[i] != p[j] by {
            if i == numbers@.len() {
                assert(numbers@[j] != v);
            } else if j == numbers@.len() {
                assert(numbers@[i] != v);
            }
        }
    }
    numbers.push(v);
    true
}

/// Adds to `numbers` a value of `0 ..= from` that it lacks, drawn uniformly
/// among those.
///
/// A value is drawn from the whole range and thrown back while it was drawn
/// before; after `REDRAWS` such repeats, the value is drawn among the unused
/// ones directly. Either way each unused value is as likely as any other.
fn draw_into(numbers: &mut Vec<usize>, from: usize)
    requires
        old(numbers)@.no_duplicates(),
        forall|i: int| 0 <= i < old(numbers)@.len() ==> old(numbers)@[i] <= from,
        old(numbers)@.len() <= from,
    ensures
        final(numbers)@ == old(numbers)@.push(final(numbers)@.last()),
        final(numbers)@.last() <= from,
        final(numbers)@.no_duplicates(),
{
    let mut attempt: u32 = 0;
    while attempt < REDRAWS
        invariant
            numbers@ == old(numbers)@,
            numbers@.no_duplicates(),
        decreases REDRAWS - attempt,
    {
        let c = random_up_to(from);
        if keep_if_new(numbers, c) {
            return;
        }
        attempt = attempt + 1;
    }
    let r = random_up_to(from - numbers.len());
    let v = nth_unused(numbers, from, r);
    keep_if_new(numbers, v);
}

/// One game: `take` distinct numbers drawn out of `0 ..= from`, in the order drawn.
pub struct Lotto {
    pub take: usize,
    pub from: usize,
    pub numbers: Vec<usize>,
}

impl Lotto {
    pub open spec fn wf(&self) -> bool {
        valid_draw(self.take as nat, self.from as nat, self.numbers@)
    }

    /// Draws `take` distinct numbers out of `0 ..= from`, each uniformly among
    /// the values not drawn yet.
    pub fn new(take: usize, from: usize) -> (r: Lotto)
        requires
            take <= from + 1,
        ensures
            r.take == take,
            r.from == from,
            r.wf(),
    {
        let mut numbers: Vec<usize> = Vec::new();
        while numbers.len() < take
            invariant
                take <= from + 1,
                numbers@.len() <= take,
                numbers@.no_duplicates(),
                forall|i: int| 0 <= i < numbers@.len() ==> numbers@[i] <= from,
            decreases take - numbers@.len(),
        {
            let ghost before = numbers@;
            draw_into(&mut numbers, from);
            assert forall|i: int| 0 <= i < numbers@.len() implies numbers@[i] <= from by {
                if i < before.len() {
                    assert(numbers@[i] == before[i]);
                }
            }
        }
        Lotto { take, from, numbers }
    }
}

/// A draw of none is empty.
pub proof fn lemma_draw_none(l: Lotto)
    requires
        l.wf(),
        l.take == 0,
    ensures
        l.numbers@ == Seq::<usize>::empty(),
{
    assert(l.numbers@ =~= Seq::<usize>::empty());
}

/// A draw of `from + 1` out of `0 ..= from` holds every value of the range exactly once.
pub proof fn lemma_draw_whole_range(l: Lotto)
    requires
        l.wf(),
        l.take == l.from + 1,
    ensures
        forall|k: usize| k <= l.from ==> l.numbers@.contains(k),
        l.numbers@.no_duplicates(),
{
    let n = l.from as nat + 1;
    lemma_used_below_all(l.numbers@, n);
    lemma_used_below_full(l.numbers@, n);
}

/// The numbers in decimal, separated by a comma and a space.
pub open spec fn joined(nums: Seq<usize>) -> Seq<char>
    decreases nums.len(),
{
    if nums.len() == 0 {
        Seq::empty()
    } else if nums.len() == 1 {
        decimal(nums[0] as nat)
    } else {
        joined(nums.drop_last()) + seq![',', ' '] + decimal(nums.last() as nat)
    }
}

/// The line that shows one game: `"<take> of <from>: [n1, n2, ...]"`.
pub open spec fn lotto_line(take: nat, from: nat, nums: Seq<usize>) -> Seq<char> {
    decimal(take) + seq![' ', 'o', 'f', ' '] + decimal(from) + seq![':', ' ', '['] + joined(nums)
        + seq![']']
}

/// Shows a game as `"<take> of <from>: [n1, n2, ...]"`, the numbers in the order drawn.
pub fn format_lotto_results(lotto: &Lotto) -> (r: String)
    ensures
        r@ == lotto_line(lotto.take as nat, lotto.from as nat, lotto.numbers@),
{
    let mut s = String::new();
    push_decimal(&mut s, lotto.take);
    proof {
        reveal_strlit(" of ");
        reveal_strlit(": [");
        reveal_strlit(", ");
        reveal_strlit("]");
    }
    s.append(" of ");
    push_decimal(&mut s, lotto.from);
    s.append(": [");
    let ghost head = s@;
    let nums = &lotto.numbers;
    let mut i: usize = 0;
    while i < nums.len()
        invariant
            i <= nums@.len(),
            s@ == head + joined(nums@.take(i as int)),
        decreases nums@.len() - i,
    {
        let ghost before = s@;
        proof {
            reveal_strlit(", ");
        }
        if i > 0 {
            s.append(", ");
        }
        let ghost mid = s@;
        push_decimal(&mut s, nums[i]);
        assert(nums@.take(i + 1).drop_last() =~= nums@.take(i as int));
        let ghost t = nums@.take(i + 1);
        assert(t.last() == nums@[i as int]);
        if i == 0 {
            assert(joined(nums@.take(0)) =~= Seq::<char>::empty());
            assert(t[0] == nums@[0]);
            assert(joined(t) == decimal(nums@[0] as nat));
            assert(mid == before);
        } else {
            assert(joined(t) == joined(t.drop_last()) + seq![',', ' '] + decimal(t.last() as nat));
            assert(s@ =~= head + (joined(nums@.take(i as int)) + seq![',', ' ']) + decimal(nums@[i as int] as nat));
        }
        assert(s@ =~= head + joined(nums@.take(i + 1)));
        i = i + 1;
    }
    assert(nums@.take(nums@.len() as int) =~= nums@);
    s.append("]");
    assert(s@ =~= lotto_line(lotto.take as nat, lotto.from as nat, lotto.numbers@));
    s
}

/// What the argument at `i` reads as, where it is a number that fits in a `usize`.
pub open spec fn arg_number(args: Seq<String>, i: int) -> Option<usize> {
    match number_u64(args[i]@) {
        Some(v) => if v <= usize::MAX {
            Some(v as usize)
        } else {
            None
        },
        None => None,
    }
}

/// The number at `i`, or zero where there is none.
pub open spec fn arg_value(args: Seq<String>, i: int) -> usize {
    match arg_number(args, i) {
        Some(v) => v,
        None => 0,
    }
}

/// How many games `args` asks for, the program's name standing first.
pub open spec fn game_count(args: Seq<String>) -> int {
    (args.len() - 1) / 2
}

pub open spec fn game_take(args: Seq<String>, g: int) -> usize {
    arg_value(args, 1 + 2 * g)
}

pub open spec fn game_from(args: Seq<String>, g: int) -> usize {
    arg_value(args, 2 + 2 * g)
}

/// The arguments ask for one or more games, each as `take from`, every one a
/// non-negative number and no `take` above its `from`.
pub open spec fn lotto_args_valid(args: Seq<String>) -> bool {
    &&& args.len() > 1
    &&& args.len() % 2 == 1
    &&& forall|i: int| 1 <= i < args.len() ==> (#[trigger] arg_number(args, i)) is Some
    &&& forall|g: int|
        0 <= g < game_count(args) ==> #[trigger] game_take(args, g) <= game_from(args, g)
}

/// `line` shows some valid draw of `take` out of `0 ..= from`.
pub open spec fn shows_draw(take: usize, from: usize, line: Seq<char>) -> bool {
    exists|nums: Seq<usize>|
        valid_draw(take as nat, from as nat, nums) && line == lotto_line(
            take as nat,
            from as nat,
            nums,
        )
}

fn arg_number_of(args: &Vec<String>, i: usize) -> (r: Option<usize>)
    requires
        i < args@.len(),
    ensures
        r == arg_number(args@, i as int),
{
    match parse_number(args[i].as_str()) {
        Some(v) => if v <= usize::MAX as u64 {
            Some(v as usize)
        } else {
            None
        },
        None => None,
    }
}

/// The position of the first argument after the program's name that is not a
/// non-negative number that fits in a `usize`, where there is one.
pub fn first_malformed(args: &Vec<String>) -> (r: Option<usize>)
    ensures
        r matches Some(i) ==> {
            &&& 1 <= i < args@.len()
            &&& arg_number(args@, i as int) is None
            &&& forall|j: int| 1 <= j < i ==> (#[trigger] arg_number(args@, j)) is Some
        },
        r is None ==> forall|j: int| 1 <= j < args@.len() ==> (#[trigger] arg_number(args@, j)) is Some,
{
    let mut i: usize = 1;
    while i < args.len()
        invariant
            1 <= i,
            forall|j: int| 1 <= j < i && j < args@.len() ==> (#[trigger] arg_number(args@, j)) is Some,
        decreases args.len() - i,
    {
        if arg_number_of(args, i).is_none() {
            return Some(i);
        }
        i = i + 1;
    }
    None
}

/// Whether some argument after the program's name is not a non-negative number
/// (a negative one, or one that is no number at all).
pub fn args_contain_negative(args: &Vec<String>) -> (r: bool)
    ensures
        r == exists|i: int| 1 <= i < args@.len() && (#[trigger] arg_number(args@, i)) is None,
{
    first_malformed(args).is_some()
}

/// Checks the arguments (the program's name first, then pairs `take from`) and,
/// where they are valid, draws each game and shows it as one line. Nothing is
/// drawn where any argument is invalid.
pub fn run(args: &Vec<String>) -> (r: Option<Vec<String>>)
    ensures
        r is Some <==> lotto_args_valid(args@),
        r matches Some(lines) ==> {
            &&& lines@.len() == game_count(args@)
            &&& forall|g: int|
                0 <= g < lines@.len() ==> shows_draw(
                    game_take(args@, g),
                    game_from(args@, g),
                    #[trigger] lines@[g]@,
                )
        },
{
    if args.len() <= 1 || args.len() % 2 == 0 || args_contain_negative(args) {
        return None;
    }
    let len = args.len();
    let n = (len - 1) / 2;
    let mut g: usize = 0;
    while g < n
        invariant
            n == game_count(args@),
            2 * n + 1 == len,
            len == args@.len(),
            args@.len() > 1,
            args@.len() % 2 == 1,
            forall|i: int| 1 <= i < args@.len() ==> (#[trigger] arg_number(args@, i)) is Some,
            g <= n,
            forall|h: int| 0 <= h < g ==> #[trigger] game_take(args@, h) <= game_from(args@, h),
        decreases n - g,
    {
        let take = arg_number_of(args, 1 + 2 * g).unwrap();
        let from = arg_number_of(args, 2 + 2 * g).unwrap();
        if take > from {
            assert(!(game_take(args@, g as int) <= game_from(args@, g as int)));
            return None;
        }
        g = g + 1;
    }
    let mut lines: Vec<String> = Vec::new();
    let mut g: usize = 0;
    while g < n
        invariant
            n == game_count(args@),
            2 * n + 1 == len,
            len == args@.len(),
            lotto_args_valid(args@),
            g <= n,
            lines@.len() == g,
            forall|h: int|
                0 <= h < g ==> shows_draw(
                    game_take(args@, h),
                    game_from(args@, h),
                    #[trigger] lines@[h]@,
                ),
        decreases n - g,
    {
        let take = arg_number_of(args, 1 + 2 * g).unwrap();
        let from = arg_number_of(args, 2 + 2 * g).unwrap();
        assert(game_take(args@, g as int) <= game_from(args@, g as int));
        let lotto = Lotto::new(take, from);
        let line = format_lotto_results(&lotto);
        assert(shows_draw(take, from, line@));
        lines.push(line);
        g = g + 1;
    }
    Some(lines)
}

} // verus!
