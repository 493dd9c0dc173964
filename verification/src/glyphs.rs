//! What holds of every glyph of the stroke font.

use vstd::prelude::*;

use crate::hershey;

verus! {

/// The character is printable ASCII.
pub open spec fn printable(c: char) -> bool {
    ' ' <= c && c <= '~'
}

/// The point is inside the box of a glyph.
pub open spec fn in_box(p: (i8, i8)) -> bool {
    0 <= p.0 <= 24 && -8 <= p.1 <= 32
}

/// The stroke has two points or more, all inside the box.
pub open spec fn proper(s: Seq<(i8, i8)>) -> bool {
    s.len() >= 2 && forall|j: int| 0 <= j < s.len() ==> in_box(#[trigger] s[j])
}

/// From pair `k` on, with `n` points in the open stroke, the code stands for
/// proper strokes.
spec fn drawn_from(code: Seq<char>, k: int, n: int) -> bool
    decreases code.len() - k,
{
    if k < 0 || 2 * k + 1 >= code.len() {
        2 * k == code.len() && n == 0
    } else if code[2 * k] == ' ' {
        n >= 2 && drawn_from(code, k + 1, 0)
    } else {
        &&& '0' <= code[2 * k] && code[2 * k] <= 'H'
        &&& '(' <= code[2 * k + 1] && code[2 * k + 1] <= 'P'
        &&& drawn_from(code, k + 1, n + 1)
    }
}

/// The code stands for proper strokes, and begins where the placeholder does
/// not.
spec fn drawn(code: Seq<char>) -> bool {
    &&& drawn_from(code, 0, 0)
    &&& code.len() > 0
    &&& code[0] != '6'
}

#[verifier::spinoff_prover]
proof fn drawn_0()
    ensures
        drawn("<L<8  <4<0  "@),
        drawn("8L8F  @L@F  "@),
        drawn("8L80  @L@0  4DDD  48D8  "@),
        drawn("DH4H4@D<D444  <N<.  "@),
        drawn("40DL  6L:L:H6H6L  >4B4B0>0>4  "@),
        drawn("D04@4H<L@H@B484480@0D4  "@),
        drawn("<L<F  "@),
        drawn("@P8H84@,  "@),
        drawn("8P@H@48,  "@),
        drawn("<H<8  4DD<  DD4<  "@),
        drawn("<F<6  4>D>  "@),
        drawn("<4<08,  "@),
{
    reveal_strlit("<L<8  <4<0  ");
    reveal_strlit("8L8F  @L@F  ");
    reveal_strlit("8L80  @L@0  4DDD  48D8  ");
    reveal_strlit("DH4H4@D<D444  <N<.  ");
    reveal_strlit("40DL  6L:L:H6H6L  >4B4B0>0>4  ");
    reveal_strlit("D04@4H<L@H@B484480@0D4  ");
    reveal_strlit("<L<F  ");
    reveal_strlit("@P8H84@,  ");
    reveal_strlit("8P@H@48,  ");
    reveal_strlit("<H<8  4DD<  DD4<  ");
    reveal_strlit("<F<6  4>D>  ");
    reveal_strlit("<4<08,  ");
    reveal_with_fuel(drawn_from, 16);
}

#[verifier::spinoff_prover]
proof fn drawn_1()
    ensures
        drawn("4>D>  "@),
        drawn("<4<0  "@),
        drawn("40DL  "@),
        drawn("80444H8L@LDHD4@080  44DH  "@),
        drawn("8F<L<0  60B0  "@),
        drawn("4H8L@LDHDB40D0  "@),
        drawn("4H8L@LDHDB@>8>  @>D:D4@08044  "@),
        drawn("@0@L4:D:  "@),
        drawn("DL4L4@@@D<D4@08044  "@),
        drawn("DH@L8L4H4480@0D4D<@@4@  "@),
        drawn("4LDL80  "@),
        drawn("8L4H4B8>@>DBDH@L8L  8>4:4480@0D4D:@>  "@),
{
    reveal_strlit("4>D>  ");
    reveal_strlit("<4<0  ");
    reveal_strlit("40DL  ");
    reveal_strlit("80444H8L@LDHD4@080  44DH  ");
    reveal_strlit("8F<L<0  60B0  ");
    reveal_strlit("4H8L@LDHDB40D0  ");
    reveal_strlit("4H8L@LDHDB@>8>  @>D:D4@08044  ");
    reveal_strlit("@0@L4:D:  ");
    reveal_strlit("DL4L4@@@D<D4@08044  ");
    reveal_strlit("DH@L8L4H4480@0D4D<@@4@  ");
    reveal_strlit("4LDL80  ");
    reveal_strlit("8L4H4B8>@>DBDH@L8L  8>4:4480@0D4D:@>  ");
    reveal_with_fuel(drawn_from, 20);
}

#[verifier::spinoff_prover]
proof fn drawn_2()
    ensures
        drawn("4480@0D4DH@L8L4H4@8<D<  "@),
        drawn("<B<>  <4<0  "@),
        drawn("<B<>  <4<08,  "@),
        drawn("DF4>D6  "@),
        drawn("4BDB  4:D:  "@),
        drawn("4FD>46  "@),
        drawn("4H8L@LDHDB<<<8  <4<0  "@),
        drawn("D8@484484D8H@HDDD8@8><>B<D:B:<<:@:  "@),
        drawn("404F<LDFD0  4<D<  "@),
        drawn("404L@LDHDB@>4>  @>D:D4@040  "@),
        drawn("DH@L8L4H4480@0D4  "@),
        drawn("404L>LDFD6>040  "@),
{
    reveal_strlit("4480@0D4DH@L8L4H4@8<D<  ");
    reveal_strlit("<B<>  <4<0  ");
    reveal_strlit("<B<>  <4<08,  ");
    reveal_strlit("DF4>D6  ");
    reveal_strlit("4BDB  4:D:  ");
    reveal_strlit("4FD>46  ");
    reveal_strlit("4H8L@LDHDB<<<8  <4<0  ");
    reveal_strlit("D8@484484D8H@HDDD8@8><>B<D:B:<<:@:  ");
    reveal_strlit("404F<LDFD0  4<D<  ");
    reveal_strlit("404L@LDHDB@>4>  @>D:D4@040  ");
    reveal_strlit("DH@L8L4H4480@0D4  ");
    reveal_strlit("404L>LDFD6>040  ");
    reveal_with_fuel(drawn_from, 19);
}

#[verifier::spinoff_prover]
proof fn drawn_3()
    ensures
        drawn("DL4L40D0  4>@>  "@),
        drawn("DL4L40  4>@>  "@),
        drawn("DH@L8L4H4480@0D4D<<<  "@),
        drawn("404L  D0DL  4>D>  "@),
        drawn("80@0  <0<L  8L@L  "@),
        drawn("DLD4@08044  "@),
        drawn("404L  DL4>D0  "@),
        drawn("4L40D0  "@),
        drawn("404L<>DLD0  "@),
        drawn("404LD0DL  "@),
        drawn("80444H8L@LDHD4@080  "@),
        drawn("404L@LDHDB@>4>  "@),
{
    reveal_strlit("DL4L40D0  4>@>  ");
    reveal_strlit("DL4L40  4>@>  ");
    reveal_strlit("DH@L8L4H4480@0D4D<<<  ");
    reveal_strlit("404L  D0DL  4>D>  ");
    reveal_strlit("80@0  <0<L  8L@L  ");
    reveal_strlit("DLD4@08044  ");
    reveal_strlit("404L  DL4>D0  ");
    reveal_strlit("4L40D0  ");
    reveal_strlit("404L<>DLD0  ");
    reveal_strlit("404LD0DL  ");
    reveal_strlit("80444H8L@LDHD4@080  ");
    reveal_strlit("404L@LDHDB@>4>  ");
    reveal_with_fuel(drawn_from, 12);
}

#[verifier::spinoff_prover]
proof fn drawn_4()
    ensures
        drawn("80444H8L@LDHD4@080  >6F.  "@),
        drawn("404L@LDHDB@>4>  <>D0  "@),
        drawn("DH@L8L4H4B8>@>D:D4@08044  "@),
        drawn("4LDL  <L<0  "@),
        drawn("4L4480@0D4DL  "@),
        drawn("4L<0DL  "@),
        drawn("4L80<>@0DL  "@),
        drawn("4LD0  40DL  "@),
        drawn("4L<>DL  <><0  "@),
        drawn("4LDL40D0  "@),
        drawn("@P8P8,@,  "@),
        drawn("4LD0  "@),
{
    reveal_strlit("80444H8L@LDHD4@080  >6F.  ");
    reveal_strlit("404L@LDHDB@>4>  <>D0  ");
    reveal_strlit("DH@L8L4H4B8>@>D:D4@08044  ");
    reveal_strlit("4LDL  <L<0  ");
    reveal_strlit("4L4480@0D4DL  ");
    reveal_strlit("4L<0DL  ");
    reveal_strlit("4L80<>@0DL  ");
    reveal_strlit("4LD0  40DL  ");
    reveal_strlit("4L<>DL  <><0  ");
    reveal_strlit("4LDL40D0  ");
    reveal_strlit("@P8P8,@,  ");
    reveal_strlit("4LD0  ");
    reveal_with_fuel(drawn_from, 14);
}

#[verifier::spinoff_prover]
proof fn drawn_5()
    ensures
        drawn("8P@P@,8,  "@),
        drawn("4F<NDF  "@),
        drawn("0.H.  "@),
        drawn("8N>H  "@),
        drawn("444>8B@BD>D0  D848  "@),
        drawn("4L40@0D4D>@B8B4>  "@),
        drawn("D>@B8B4>4480@0D4  "@),
        drawn("DLD080444>8B@BD>  "@),
        drawn("48D8D>@B8B4>4480@0D4  "@),
        drawn("DL<L8H80  4>@>  "@),
        drawn("DB4B48D8  DBD,@(8(4,  "@),
        drawn("4L40  4>8B@BD>D0  "@),
{
    reveal_strlit("8P@P@,8,  ");
    reveal_strlit("4F<NDF  ");
    reveal_strlit("0.H.  ");
    reveal_strlit("8N>H  ");
    reveal_strlit("444>8B@BD>D0  D848  ");
    reveal_strlit("4L40@0D4D>@B8B4>  ");
    reveal_strlit("D>@B8B4>4480@0D4  ");
    reveal_strlit("DLD080444>8B@BD>  ");
    reveal_strlit("48D8D>@B8B4>4480@0D4  ");
    reveal_strlit("DL<L8H80  4>@>  ");
    reveal_strlit("DB4B48D8  DBD,@(8(4,  ");
    reveal_strlit("4L40  4>8B@BD>D0  ");
    reveal_with_fuel(drawn_from, 12);
}

#[verifier::spinoff_prover]
proof fn drawn_6()
    ensures
        drawn("<H<F  <B<0  "@),
        drawn("@H@F  @B@,<(4(  "@),
        drawn("4L40  DB48D0  "@),
        drawn("8L<L<0@0  "@),
        drawn("404B:B<><0  <>>BDBD0  "@),
        drawn("404B8BD4D0  "@),
        drawn("80444>8B@BD>D4@080  "@),
        drawn("4(4B@BD>D4@08044  "@),
        drawn("D(DB8B4>4480@0D4  "@),
        drawn("404B  4>8BDB  "@),
        drawn("D>@B8B4>88@8D4@08044  "@),
        drawn("8L84<0D0  4B@B  "@),
{
    reveal_strlit("<H<F  <B<0  ");
    reveal_strlit("@H@F  @B@,<(4(  ");
    reveal_strlit("4L40  DB48D0  ");
    reveal_strlit("8L<L<0@0  ");
    reveal_strlit("404B:B<><0  <>>BDBD0  ");
    reveal_strlit("404B8BD4D0  ");
    reveal_strlit("80444>8B@BD>D4@080  ");
    reveal_strlit("4(4B@BD>D4@08044  ");
    reveal_strlit("D(DB8B4>4480@0D4  ");
    reveal_strlit("404B  4>8BDB  ");
    reveal_strlit("D>@B8B4>88@8D4@08044  ");
    reveal_strlit("8L84<0D0  4B@B  ");
    reveal_with_fuel(drawn_from, 12);
}

#[verifier::spinoff_prover]
proof fn drawn_7()
    ensures
        drawn("4B4480@0D4DB  D4D0  "@),
        drawn("4B<0DB  "@),
        drawn("4B80<:@0DB  "@),
        drawn("4BD0  40DB  "@),
        drawn("4B<4  DB8(4(  "@),
        drawn("4BDB40D0  "@),
        drawn("DP@L@B<>@:@0D,  "@),
        drawn("<P<,  "@),
        drawn("4P8L8B<>8:804,  "@),
        drawn("4>8B@:D>  "@),
{
    reveal_strlit("4B4480@0D4DB  D4D0  ");
    reveal_strlit("4B<0DB  ");
    reveal_strlit("4B80<:@0DB  ");
    reveal_strlit("4BD0  40DB  ");
    reveal_strlit("4B<4  DB8(4(  ");
    reveal_strlit("4BDB40D0  ");
    reveal_strlit("DP@L@B<>@:@0D,  ");
    reveal_strlit("<P<,  ");
    reveal_strlit("4P8L8B<>8:804,  ");
    reveal_strlit("4>8B@:D>  ");
    reveal_with_fuel(drawn_from, 11);
}

proof fn code_is_drawn(c: char)
    requires
        printable(c),
        c != ' ',
    ensures
        drawn(hershey::code_of(c)),
{
    reveal(hershey::code_of);
    drawn_0();
    drawn_1();
    drawn_2();
    drawn_3();
    drawn_4();
    drawn_5();
    drawn_6();
    drawn_7();
}

/// Decoding from pair `k` on keeps the strokes proper.
proof fn decoding_is_proper(code: Seq<char>, k: int)
    requires
        0 <= k,
        2 * k <= code.len(),
        drawn_from(code, k, hershey::decoded(code, k).1.len() as int),
        forall|i: int|
            0 <= i < hershey::decoded(code, k).0.len() ==> proper(
                #[trigger] hershey::decoded(code, k).0[i],
            ),
        forall|j: int|
            0 <= j < hershey::decoded(code, k).1.len() ==> in_box(
                #[trigger] hershey::decoded(code, k).1[j],
            ),
    ensures
        code.len() % 2 == 0,
        forall|i: int|
            0 <= i < hershey::decoded(code, code.len() as int / 2).0.len() ==> proper(
                #[trigger] hershey::decoded(code, code.len() as int / 2).0[i],
            ),
    decreases code.len() - 2 * k,
{
    if 2 * k < code.len() {
        let (done, open) = hershey::decoded(code, k);
        let (more, next) = hershey::decoded(code, k + 1);
        if code[2 * k] == ' ' {
            assert(more == done.push(open));
            assert(next.len() == 0);
        } else {
            assert(more == done);
            assert(next.len() == open.len() + 1);
        }
        assert(2 * (k + 1) <= code.len());
        decoding_is_proper(code, k + 1);
    }
}

/// Once a stroke is begun, its first point stays.
proof fn first_point_stays(code: Seq<char>, k: int)
    requires
        drawn(code),
        1 <= k,
        2 * k <= code.len(),
    ensures
        ({
            let (done, open) = hershey::decoded(code, k);
            let first = (hershey::unit_of(code[0]), hershey::unit_of(code[1]));
            if done.len() > 0 {
                done[0].len() > 0 && done[0][0] == first
            } else {
                open.len() > 0 && open[0] == first
            }
        }),
    decreases k,
{
    reveal_with_fuel(hershey::decoded, 2);
    if k > 1 {
        first_point_stays(code, k - 1);
    }
}

/// A drawn code has a stroke.
proof fn something_is_drawn(code: Seq<char>, k: int)
    requires
        0 <= k,
        2 * k <= code.len(),
        drawn_from(code, k, hershey::decoded(code, k).1.len() as int),
        hershey::decoded(code, k).0.len() > 0 || 2 * k < code.len(),
    ensures
        hershey::decoded(code, code.len() as int / 2).0.len() > 0,
    decreases code.len() - 2 * k,
{
    if 2 * k < code.len() {
        assert(2 * (k + 1) <= code.len());
        if 2 * (k + 1) == code.len() {
            reveal_with_fuel(drawn_from, 2);
            assert(code[2 * k] == ' ');
            assert(hershey::decoded(code, k + 1).0.len() > 0);
        }
        something_is_drawn(code, k + 1);
    }
}

/// The strokes of the placeholder.
pub open spec fn placeholder() -> Seq<Seq<(i8, i8)>> {
    seq![seq![(6i8, 0i8), (18i8, 0i8), (18i8, 24i8), (6i8, 24i8), (6i8, 0i8)]]
}

/// Every character that is not printable has one closed rectangle of 12 by
/// 24 units for a placeholder.
pub proof fn others_have_the_placeholder(u: char)
    requires
        !printable(u),
    ensures
        hershey::strokes_of(u) == placeholder(),
{
    reveal(hershey::code_of);
    reveal_strlit("60B0BH6H60  ");
    reveal_with_fuel(hershey::decoded, 7);
    let code = "60B0BH6H60  "@;
    assert(hershey::code_of(u) == code);
    assert(hershey::decoded(code, 6).0 =~= placeholder()) by {
        assert(hershey::decoded(code, 5).1 =~= placeholder()[0]);
    }
}

/// The space has no strokes.
pub proof fn space_is_blank()
    ensures
        hershey::strokes_of(' ').len() == 0,
{
    reveal(hershey::code_of);
    reveal_strlit("");
}

/// No printable character looks like the placeholder.
pub proof fn printable_is_no_placeholder(c: char)
    requires
        printable(c),
    ensures
        hershey::strokes_of(c) != placeholder(),
{
    if c == ' ' {
        space_is_blank();
    } else {
        code_is_drawn(c);
        let code = hershey::code_of(c);
        decoding_is_proper(code, 0);
        something_is_drawn(code, 0);
        first_point_stays(code, code.len() as int / 2);
        assert(hershey::strokes_of(c)[0][0].0 == hershey::unit_of(code[0]));
        assert(placeholder()[0][0].0 == 6);
    }
}

/// Every stroke of every character has two points or more, all inside the
/// box.
pub proof fn strokes_are_proper(c: char, i: int)
    requires
        0 <= i < hershey::strokes_of(c).len(),
    ensures
        proper(hershey::strokes_of(c)[i]),
{
    if !printable(c) {
        others_have_the_placeholder(c);
    } else if c == ' ' {
        space_is_blank();
    } else {
        code_is_drawn(c);
        decoding_is_proper(hershey::code_of(c), 0);
    }
}

} // verus!
