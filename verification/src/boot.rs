//! Boot-time discovery of secondary harts.
//!
//! The device tree is walked by the unverified shell, which feeds each
//! node and property it meets into the `HartDiscovery` state machine
//! below and obeys the walk operation handed back. The decisions —
//! which subtrees to enter, which hart ids to collect from `cpu@N`
//! node names, which hart to ask the platform to start, and when to
//! stop — are all made and verified here.

use vstd::prelude::*;

verus! {

/// What the visitor tells the tree walk to do next: descend into the
/// node, skip its subtree, ascend out of the parent, or stop walking.
#[derive(Copy, Clone, Debug, PartialEq, Eq, Structural)]
pub enum WalkOp {
    StepInto,
    StepOver,
    StepOut,
    Terminate,
}

/// One observation handed in from the device-tree walk: a subnode
/// (with where it sits and its name), a `status` property seen on some
/// node, or any other property.
pub enum DtbEvent {
    SubNode { path_is_root: bool, path_name: Vec<u8>, name: Vec<u8> },
    StatusProperty { path_name: Vec<u8>, okay: bool },
    OtherProperty,
}

/// A malformed processor node name: `cpu@` followed by anything but a
/// hexadecimal hart id.
#[derive(Copy, Clone, Debug, PartialEq, Eq, Structural)]
pub enum BootError {
    MalformedCpuId,
}

/// ASCII bytes the node-name checks compare against.
pub const ASCII_C: u8 = 0x63;

pub const ASCII_P: u8 = 0x70;

pub const ASCII_U: u8 = 0x75;

pub const ASCII_S: u8 = 0x73;

pub const ASCII_AT: u8 = 0x40;

pub const ASCII_0: u8 = 0x30;

pub const ASCII_9: u8 = 0x39;

pub const ASCII_LA: u8 = 0x61;

pub const ASCII_LF: u8 = 0x66;

pub const ASCII_UA: u8 = 0x41;

pub const ASCII_UF: u8 = 0x46;

pub open spec fn cpus_name() -> Seq<u8> {
    seq![ASCII_C, ASCII_P, ASCII_U, ASCII_S]
}

pub open spec fn cpu_name() -> Seq<u8> {
    seq![ASCII_C, ASCII_P, ASCII_U]
}

/// The name begins with `cpu@`.
pub open spec fn is_cpu_at(name: Seq<u8>) -> bool {
    name.len() >= 4 && name.subrange(0, 4) == seq![ASCII_C, ASCII_P, ASCII_U, ASCII_AT]
}

pub open spec fn is_hex_digit(b: u8) -> bool {
    (ASCII_0 <= b <= ASCII_9) || (ASCII_LA <= b <= ASCII_LF) || (ASCII_UA <= b <= ASCII_UF)
}

pub open spec fn hex_digit_val(b: u8) -> nat {
    if ASCII_0 <= b <= ASCII_9 {
        (b - ASCII_0) as nat
    } else if ASCII_LA <= b <= ASCII_LF {
        (b - ASCII_LA + 10) as nat
    } else if ASCII_UA <= b <= ASCII_UF {
        (b - ASCII_UA + 10) as nat
    } else {
        0
    }
}

/// The number a big-endian string of hex digits denotes.
pub open spec fn hex_value(s: Seq<u8>) -> nat
    decreases s.len(),
{
    if s.len() == 0 {
        0
    } else {
        hex_value(s.drop_last()) * 16 + hex_digit_val(s.last())
    }
}

/// `cpu@` is followed by at least one hex digit whose value fits the
/// machine word.
pub open spec fn valid_cpu_id(name: Seq<u8>) -> bool {
    &&& name.len() > 4
    &&& (forall|i: int| 4 <= i < name.len() ==> is_hex_digit(#[trigger] name[i]))
    &&& hex_value(name.subrange(4, name.len() as int)) <= u64::MAX
}

pub open spec fn cpu_id_value(name: Seq<u8>) -> nat {
    hex_value(name.subrange(4, name.len() as int))
}

/// A longer digit string never denotes a smaller number.
proof fn lemma_hex_value_grows(s: Seq<u8>, j: int, k: int)
    requires
        0 <= j <= k <= s.len(),
    ensures
        hex_value(s.subrange(0, j)) <= hex_value(s.subrange(0, k)),
    decreases k - j,
{
    if j < k {
        lemma_hex_value_grows(s, j, k - 1);
        assert(s.subrange(0, k).drop_last() == s.subrange(0, k - 1));
        assert(hex_value(s.subrange(0, k)) == hex_value(s.subrange(0, k - 1)) * 16
            + hex_digit_val(s.subrange(0, k).last()));
        assert(hex_value(s.subrange(0, k - 1)) * 16 >= hex_value(s.subrange(0, k - 1)))
            by (nonlinear_arith);
    }
}

fn name_is_cpus(name: &Vec<u8>) -> (r: bool)
    ensures
        r <==> name@ == cpus_name(),
{
    if name.len() != 4 {
        proof {
            assert(name@ != cpus_name());
        }
        return false;
    }
    let r = name[0] == ASCII_C && name[1] == ASCII_P && name[2] == ASCII_U && name[3] == ASCII_S;
    proof {
        if r {
            assert(name@ =~= cpus_name());
        } else {
            assert(name@ != cpus_name());
        }
    }
    r
}

fn name_is_cpu(name: &Vec<u8>) -> (r: bool)
    ensures
        r <==> name@ == cpu_name(),
{
    if name.len() != 3 {
        proof {
            assert(name@ != cpu_name());
        }
        return false;
    }
    let r = name[0] == ASCII_C && name[1] == ASCII_P && name[2] == ASCII_U;
    proof {
        if r {
            assert(name@ =~= cpu_name());
        } else {
            assert(name@ != cpu_name());
        }
    }
    r
}

fn name_starts_cpu_at(name: &Vec<u8>) -> (r: bool)
    ensures
        r <==> is_cpu_at(name@),
{
    if name.len() < 4 {
        return false;
    }
    let r = name[0] == ASCII_C && name[1] == ASCII_P && name[2] == ASCII_U && name[3] == ASCII_AT;
    proof {
        if r {
            assert(name@.subrange(0, 4) =~= seq![ASCII_C, ASCII_P, ASCII_U, ASCII_AT]);
        } else {
            assert(name@.subrange(0, 4) != seq![ASCII_C, ASCII_P, ASCII_U, ASCII_AT]) by {
                if name@.subrange(0, 4) == seq![ASCII_C, ASCII_P, ASCII_U, ASCII_AT] {
                    assert(name@[0] == name@.subrange(0, 4)[0]);
                    assert(name@[1] == name@.subrange(0, 4)[1]);
                    assert(name@[2] == name@.subrange(0, 4)[2]);
                    assert(name@[3] == name@.subrange(0, 4)[3]);
                }
            }
        }
    }
    r
}

/// Parses the hex hart id after the `cpu@` prefix; `None` when the
/// digits are missing, malformed, or too large for the machine word.
fn parse_cpu_id(name: &Vec<u8>) -> (r: Option<u64>)
    requires
        is_cpu_at(name@),
    ensures
        r is Some <==> valid_cpu_id(name@),
        r is Some ==> r.unwrap() == cpu_id_value(name@),
{
    let n = name.len();
    if n == 4 {
        return None;
    }
    let ghost digits = name@.subrange(4, name@.len() as int);
    let mut acc: u64 = 0;
    let mut i: usize = 4;
    while i < n
        invariant
            4 <= i <= n,
            n == name@.len(),
            digits == name@.subrange(4, n as int),
            forall|w: int| 4 <= w < i ==> is_hex_digit(#[trigger] name@[w]),
            acc == hex_value(digits.subrange(0, i - 4)),
        decreases n - i,
    {
        let b = name[i];
        let d: u64 = if b >= ASCII_0 && b <= ASCII_9 {
            (b - ASCII_0) as u64
        } else if b >= ASCII_LA && b <= ASCII_LF {
            (b - ASCII_LA) as u64 + 10
        } else if b >= ASCII_UA && b <= ASCII_UF {
            (b - ASCII_UA) as u64 + 10
        } else {
            proof {
                assert(digits[i - 4] == name@[i as int]);
                assert(!valid_cpu_id(name@));
            }
            return None;
        };
        proof {
            assert(d == hex_digit_val(name@[i as int]));
        }
        if acc > (u64::MAX - d) / 16 {
            proof {
                assert(digits.subrange(0, i - 4 + 1).drop_last() == digits.subrange(0, i - 4));
                assert(digits.subrange(0, i - 4 + 1).last() == digits[i - 4]);
                assert(hex_value(digits.subrange(0, i - 4 + 1)) == acc * 16 + d);
                assert(acc * 16 + d > u64::MAX) by (nonlinear_arith)
                    requires
                        acc > (u64::MAX - d) / 16,
                        d <= 15,
                ;
                lemma_hex_value_grows(digits, i - 4 + 1, digits.len() as int);
                assert(digits.subrange(0, digits.len() as int) == digits);
                assert(!valid_cpu_id(name@));
            }
            return None;
        }
        proof {
            assert(acc * 16 + d <= u64::MAX) by (nonlinear_arith)
                requires
                    acc <= (u64::MAX - d) / 16,
                    d <= 15,
            ;
            assert(digits.subrange(0, i - 4 + 1).drop_last() == digits.subrange(0, i - 4));
            assert(digits.subrange(0, i - 4 + 1).last() == digits[i - 4]);
        }
        acc = acc * 16 + d;
        i = i + 1;
    }
    proof {
        assert(digits.subrange(0, n - 4) == digits);
        assert(valid_cpu_id(name@));
    }
    Some(acc)
}

/// The visitor state while scanning the device tree for processor
/// nodes: whether the `cpus` container has been entered, and the hart
/// id collected from the most recent `cpu@N` node, still awaiting its
/// `status` verdict.
pub struct HartDiscovery {
    pub in_cpus: bool,
    pub pending: Option<u64>,
}

impl HartDiscovery {
    pub fn new() -> (r: Self)
        ensures
            !r.in_cpus,
            r.pending is None,
    {
        HartDiscovery { in_cpus: false, pending: None }
    }

    /// Advances the discovery by one walk observation and decides the
    /// next walk operation; the second result names a hart the
    /// platform should now be asked to start.
    ///
    /// At the root, `cpus` is entered and any other node after it ends
    /// the walk, releasing the hart still pending. Inside `cpus`, a
    /// bare `cpu` node means a single-core tree and ends the walk; a
    /// `cpu@N` node releases the previously pending hart and makes N
    /// pending. A non-`okay` status on a `cpu@N` node discards the
    /// pending hart and leaves that node.
    pub fn step(&mut self, event: &DtbEvent) -> (r: Result<(WalkOp, Option<u64>), BootError>)
        ensures
            (match *event {
                DtbEvent::SubNode { path_is_root, ref path_name, ref name } => {
                    if path_is_root {
                        if name@ == cpus_name() {
                            &&& r == Ok::<_, BootError>((WalkOp::StepInto, Option::<u64>::None))
                            &&& final(self).in_cpus
                            &&& final(self).pending == old(self).pending
                        } else if old(self).in_cpus {
                            &&& r == Ok::<_, BootError>((WalkOp::Terminate, old(self).pending))
                            &&& final(self).in_cpus == old(self).in_cpus
                            &&& final(self).pending is None
                        } else {
                            &&& r == Ok::<_, BootError>((WalkOp::StepOver, Option::<u64>::None))
                            &&& *final(self) == *old(self)
                        }
                    } else if path_name@ == cpus_name() {
                        if name@ == cpu_name() {
                            &&& r == Ok::<_, BootError>((WalkOp::Terminate, Option::<u64>::None))
                            &&& *final(self) == *old(self)
                        } else if is_cpu_at(name@) {
                            if valid_cpu_id(name@) {
                                &&& r == Ok::<_, BootError>((WalkOp::StepInto, old(self).pending))
                                &&& final(self).in_cpus == old(self).in_cpus
                                &&& final(self).pending == Some(cpu_id_value(name@) as u64)
                            } else {
                                r == Err::<(WalkOp, Option<u64>), _>(BootError::MalformedCpuId)
                            }
                        } else {
                            &&& r == Ok::<_, BootError>((WalkOp::StepOver, Option::<u64>::None))
                            &&& *final(self) == *old(self)
                        }
                    } else {
                        &&& r == Ok::<_, BootError>((WalkOp::StepOver, Option::<u64>::None))
                        &&& *final(self) == *old(self)
                    }
                },
                DtbEvent::StatusProperty { ref path_name, okay } => {
                    if is_cpu_at(path_name@) && !okay {
                        &&& r == Ok::<_, BootError>((WalkOp::StepOut, Option::<u64>::None))
                        &&& final(self).in_cpus == old(self).in_cpus
                        &&& final(self).pending is None
                    } else {
                        &&& r == Ok::<_, BootError>((WalkOp::StepOver, Option::<u64>::None))
                        &&& *final(self) == *old(self)
                    }
                },
                DtbEvent::OtherProperty => {
                    &&& r == Ok::<_, BootError>((WalkOp::StepOver, Option::<u64>::None))
                    &&& *final(self) == *old(self)
                },
            }),
    {
        match event {
            DtbEvent::SubNode { path_is_root, path_name, name } => {
                if *path_is_root {
                    if name_is_cpus(name) {
                        self.in_cpus = true;
                        Ok((WalkOp::StepInto, None))
                    } else if self.in_cpus {
                        let h = self.pending;
                        self.pending = None;
                        Ok((WalkOp::Terminate, h))
                    } else {
                        Ok((WalkOp::StepOver, None))
                    }
                } else if name_is_cpus(path_name) {
                    if name_is_cpu(name) {
                        Ok((WalkOp::Terminate, None))
                    } else if name_starts_cpu_at(name) {
                        match parse_cpu_id(name) {
                            Some(id) => {
                                let prev = self.pending;
                                self.pending = Some(id);
                                Ok((WalkOp::StepInto, prev))
                            },
                            None => Err(BootError::MalformedCpuId),
                        }
                    } else {
                        Ok((WalkOp::StepOver, None))
                    }
                } else {
                    Ok((WalkOp::StepOver, None))
                }
            },
            DtbEvent::StatusProperty { path_name, okay } => {
                if name_starts_cpu_at(path_name) && !*okay {
                    self.pending = None;
                    Ok((WalkOp::StepOut, None))
                } else {
                    Ok((WalkOp::StepOver, None))
                }
            },
            DtbEvent::OtherProperty => Ok((WalkOp::StepOver, None)),
        }
    }
}

} // verus!
