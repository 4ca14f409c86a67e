//! The validation warnings of a plan: each reference that points at nothing, and each
//! campaign tracked by a plain `http://` link, in the order the check meets them.
use vstd::prelude::*;
use crate::plan::{
    Battlefront,
    Battleplan,
    Campaign,
    Problem,
    Release,
    Team,
    battlefront_named,
    has_battlefront,
    has_release,
    has_team,
    release_named,
    team_named,
};
use crate::text::{is_prefix, starts_with};

verus! {

/// A warning about a plan.
#[derive(Debug)]
pub enum PlanWarning {
    /// A battlefront names a team that does not exist.
    BogusTeam { battlefront: String, team: String },
    /// A campaign names a battlefront that does not exist.
    BogusCampaignBattlefront { campaign: String, battlefront: String },
    /// A campaign names a release that does not exist.
    BogusRelease { campaign: String, release: String },
    /// A campaign's tracking link starts with `http://`.
    HttpTrackingLink { campaign: String, link: String },
    /// A problem names a battlefront that does not exist.
    BogusProblemBattlefront { problem: String, battlefront: String },
}

/// The content of a warning.
pub enum WarningView {
    BogusTeam { battlefront: Seq<char>, team: Seq<char> },
    BogusCampaignBattlefront { campaign: Seq<char>, battlefront: Seq<char> },
    BogusRelease { campaign: Seq<char>, release: Seq<char> },
    HttpTrackingLink { campaign: Seq<char>, link: Seq<char> },
    BogusProblemBattlefront { problem: Seq<char>, battlefront: Seq<char> },
}

impl View for PlanWarning {
    type V = WarningView;

    open spec fn view(&self) -> WarningView {
        match self {
            PlanWarning::BogusTeam { battlefront, team } => WarningView::BogusTeam {
                battlefront: battlefront@,
                team: team@,
            },
            PlanWarning::BogusCampaignBattlefront { campaign, battlefront } =>
                WarningView::BogusCampaignBattlefront {
                campaign: campaign@,
                battlefront: battlefront@,
            },
            PlanWarning::BogusRelease { campaign, release } => WarningView::BogusRelease {
                campaign: campaign@,
                release: release@,
            },
            PlanWarning::HttpTrackingLink { campaign, link } => WarningView::HttpTrackingLink {
                campaign: campaign@,
                link: link@,
            },
            PlanWarning::BogusProblemBattlefront { problem, battlefront } =>
                WarningView::BogusProblemBattlefront {
                problem: problem@,
                battlefront: battlefront@,
            },
        }
    }
}

/// The content of a list of warnings.
pub open spec fn warnings_view(ws: Seq<PlanWarning>) -> Seq<WarningView> {
    Seq::new(ws.len(), |i: int| ws[i]@)
}

/// The warnings about one battlefront.
pub open spec fn battlefront_warning(b: Battlefront, ts: Seq<Team>) -> Seq<WarningView> {
    if team_named(ts, b.team@) {
        seq![]
    } else {
        seq![WarningView::BogusTeam { battlefront: b.id@, team: b.team@ }]
    }
}

/// The warnings about a list of battlefronts, in order.
pub open spec fn battlefront_warnings(bs: Seq<Battlefront>, ts: Seq<Team>) -> Seq<WarningView>
    decreases bs.len(),
{
    if bs.len() == 0 {
        seq![]
    } else {
        battlefront_warnings(bs.drop_last(), ts) + battlefront_warning(bs.last(), ts)
    }
}

/// The warnings about one campaign: a bogus battlefront, a bogus release, a plain `http://`
/// tracking link, in that order.
pub open spec fn campaign_warning(c: Campaign, bs: Seq<Battlefront>, rs: Seq<Release>) -> Seq<
    WarningView,
> {
    (if battlefront_named(bs, c.battlefront@) {
        seq![]
    } else {
        seq![
            WarningView::BogusCampaignBattlefront {
                campaign: c.id@,
                battlefront: c.battlefront@,
            },
        ]
    }) + (if release_named(rs, c.release@) {
        seq![]
    } else {
        seq![WarningView::BogusRelease { campaign: c.id@, release: c.release@ }]
    }) + (if is_prefix("http://"@, c.tracking_link@) {
        seq![WarningView::HttpTrackingLink { campaign: c.id@, link: c.tracking_link@ }]
    } else {
        seq![]
    })
}

/// The warnings about a list of campaigns, in order.
pub open spec fn campaign_warnings(cs: Seq<Campaign>, bs: Seq<Battlefront>, rs: Seq<Release>) -> Seq<
    WarningView,
>
    decreases cs.len(),
{
    if cs.len() == 0 {
        seq![]
    } else {
        campaign_warnings(cs.drop_last(), bs, rs) + campaign_warning(cs.last(), bs, rs)
    }
}

/// The warnings about one problem.
pub open spec fn problem_warning(p: Problem, bs: Seq<Battlefront>) -> Seq<WarningView> {
    if battlefront_named(bs, p.battlefront@) {
        seq![]
    } else {
        seq![WarningView::BogusProblemBattlefront { problem: p.id@, battlefront: p.battlefront@ }]
    }
}

/// The warnings about a list of problems, in order.
pub open spec fn problem_warnings(ps: Seq<Problem>, bs: Seq<Battlefront>) -> Seq<WarningView>
    decreases ps.len(),
{
    if ps.len() == 0 {
        seq![]
    } else {
        problem_warnings(ps.drop_last(), bs) + problem_warning(ps.last(), bs)
    }
}

/// The warnings about a plan: its battlefronts', then its campaigns', then its problems'.
pub open spec fn plan_warnings(p: Battleplan) -> Seq<WarningView> {
    battlefront_warnings(p.battlefronts@, p.teams@) + campaign_warnings(
        p.campaigns@,
        p.battlefronts@,
        p.releases@,
    ) + problem_warnings(p.problems@, p.battlefronts@)
}

/// The message printed for a warning.
pub open spec fn warning_message(w: WarningView) -> Seq<char> {
    match w {
        WarningView::BogusTeam { battlefront, team } => "battlefront "@ + battlefront
            + " mentions bogus team '"@ + team + "'"@,
        WarningView::BogusCampaignBattlefront { campaign, battlefront } => "campaign "@ + campaign
            + " mentions bogus battlefront '"@ + battlefront + "'"@,
        WarningView::BogusRelease { campaign, release } => "campaign "@ + campaign
            + " mentions bogus release '"@ + release + "'"@,
        WarningView::HttpTrackingLink { campaign, link } => "campaign "@ + campaign
            + " has https tracking link: "@ + link,
        WarningView::BogusProblemBattlefront { problem, battlefront } => "problem "@ + problem
            + " mentions bogus battlefront '"@ + battlefront + "'"@,
    }
}

fn quoted_message(lead: &str, id: &String, middle: &str, name: &String) -> (r: String)
    ensures
        r@ == lead@ + id@ + middle@ + name@ + "'"@,
{
    let mut s = String::from_str(lead);
    s.append(id.as_str());
    s.append(middle);
    s.append(name.as_str());
    s.append("'");
    s
}

impl PlanWarning {
    /// The message printed for this warning.
    pub fn message(&self) -> (r: String)
        ensures
            r@ == warning_message(self@),
    {
        match self {
            PlanWarning::BogusTeam { battlefront, team } => quoted_message(
                "battlefront ",
                battlefront,
                " mentions bogus team '",
                team,
            ),
            PlanWarning::BogusCampaignBattlefront { campaign, battlefront } => quoted_message(
                "campaign ",
                campaign,
                " mentions bogus battlefront '",
                battlefront,
            ),
            PlanWarning::BogusRelease { campaign, release } => quoted_message(
                "campaign ",
                campaign,
                " mentions bogus release '",
                release,
            ),
            PlanWarning::HttpTrackingLink { campaign, link } => {
                let mut s = String::from_str("campaign ");
                s.append(campaign.as_str());
                s.append(" has https tracking link: ");
                s.append(link.as_str());
                s
            },
            PlanWarning::BogusProblemBattlefront { problem, battlefront } => quoted_message(
                "problem ",
                problem,
                " mentions bogus battlefront '",
                battlefront,
            ),
        }
    }
}

/// Every warning of the list is about a plain `http://` tracking link.
pub open spec fn only_link_warnings(ws: Seq<WarningView>) -> bool {
    forall|i: int| 0 <= i < ws.len() ==> #[trigger] ws[i] is HttpTrackingLink
}

proof fn lemma_only_link_add(x: Seq<WarningView>, y: Seq<WarningView>)
    ensures
        only_link_warnings(x + y) <==> only_link_warnings(x) && only_link_warnings(y),
{
    if only_link_warnings(x + y) {
        assert forall|i: int| 0 <= i < x.len() implies #[trigger] x[i] is HttpTrackingLink by {
            assert((x + y)[i] == x[i]);
        }
        assert forall|i: int| 0 <= i < y.len() implies #[trigger] y[i] is HttpTrackingLink by {
            assert((x + y)[x.len() + i] == y[i]);
        }
    }
    if only_link_warnings(x) && only_link_warnings(y) {
        assert forall|i: int| 0 <= i < (x + y).len() implies #[trigger] (x + y)[i] is HttpTrackingLink by {
            if i < x.len() {
                assert((x + y)[i] == x[i]);
            } else {
                assert((x + y)[i] == y[i - x.len()]);
            }
        }
    }
}

proof fn lemma_battlefront_warnings(bs: Seq<Battlefront>, ts: Seq<Team>)
    ensures
        only_link_warnings(battlefront_warnings(bs, ts)) <==> forall|i: int|
            0 <= i < bs.len() ==> team_named(ts, (#[trigger] bs[i]).team@),
    decreases bs.len(),
{
    if bs.len() > 0 {
        let d = bs.drop_last();
        lemma_battlefront_warnings(d, ts);
        lemma_only_link_add(battlefront_warnings(d, ts), battlefront_warning(bs.last(), ts));
        if !team_named(ts, bs.last().team@) {
            assert(!(battlefront_warning(bs.last(), ts)[0] is HttpTrackingLink));
        }
        if forall|i: int| 0 <= i < bs.len() ==> team_named(ts, (#[trigger] bs[i]).team@) {
            assert forall|i: int| 0 <= i < d.len() implies team_named(ts, (#[trigger] d[i]).team@) by {
                assert(d[i] == bs[i]);
            }
            assert(team_named(ts, bs[bs.len() - 1].team@));
        }
        if only_link_warnings(battlefront_warnings(bs, ts)) {
            assert forall|i: int| 0 <= i < bs.len() implies team_named(ts, (#[trigger] bs[i]).team@) by {
                if i < d.len() {
                    assert(d[i] == bs[i]);
                }
            }
        }
    }
}

proof fn lemma_campaign_warnings(cs: Seq<Campaign>, bs: Seq<Battlefront>, rs: Seq<Release>)
    ensures
        only_link_warnings(campaign_warnings(cs, bs, rs)) <==> forall|i: int|
            0 <= i < cs.len() ==> battlefront_named(bs, (#[trigger] cs[i]).battlefront@)
                && release_named(rs, cs[i].release@),
    decreases cs.len(),
{
    if cs.len() > 0 {
        let d = cs.drop_last();
        let c = cs.last();
        lemma_campaign_warnings(d, bs, rs);
        lemma_only_link_add(campaign_warnings(d, bs, rs), campaign_warning(c, bs, rs));
        let w1 = if battlefront_named(bs, c.battlefront@) {
            Seq::<WarningView>::empty()
        } else {
            seq![WarningView::BogusCampaignBattlefront { campaign: c.id@, battlefront: c.battlefront@ }]
        };
        let w2 = if release_named(rs, c.release@) {
            Seq::<WarningView>::empty()
        } else {
            seq![WarningView::BogusRelease { campaign: c.id@, release: c.release@ }]
        };
        let w3 = if is_prefix("http://"@, c.tracking_link@) {
            seq![WarningView::HttpTrackingLink { campaign: c.id@, link: c.tracking_link@ }]
        } else {
            Seq::<WarningView>::empty()
        };
        assert(campaign_warning(c, bs, rs) == w1 + w2 + w3);
        lemma_only_link_add(w1 + w2, w3);
        lemma_only_link_add(w1, w2);
        assert(only_link_warnings(w3));
        if !battlefront_named(bs, c.battlefront@) {
            assert(!(w1[0] is HttpTrackingLink));
        }
        if !release_named(rs, c.release@) {
            assert(!(w2[0] is HttpTrackingLink));
        }
        assert(only_link_warnings(campaign_warning(c, bs, rs)) <==> battlefront_named(bs, c.battlefront@)
            && release_named(rs, c.release@));
        if forall|i: int| 0 <= i < cs.len() ==> battlefront_named(bs, (#[trigger] cs[i]).battlefront@)
            && release_named(rs, cs[i].release@) {
            assert forall|i: int| 0 <= i < d.len() implies battlefront_named(bs, (#[trigger] d[i]).battlefront@)
                && release_named(rs, d[i].release@) by {
                assert(d[i] == cs[i]);
            }
            assert(battlefront_named(bs, cs[cs.len() - 1].battlefront@));
        }
        if only_link_warnings(campaign_warnings(cs, bs, rs)) {
            assert forall|i: int| 0 <= i < cs.len() implies battlefront_named(bs, (#[trigger] cs[i]).battlefront@)
                && release_named(rs, cs[i].release@) by {
                if i < d.len() {
                    assert(d[i] == cs[i]);
                }
            }
        }
    }
}

proof fn lemma_problem_warnings(ps: Seq<Problem>, bs: Seq<Battlefront>)
    ensures
        only_link_warnings(problem_warnings(ps, bs)) <==> forall|i: int|
            0 <= i < ps.len() ==> battlefront_named(bs, (#[trigger] ps[i]).battlefront@),
    decreases ps.len(),
{
    if ps.len() > 0 {
        let d = ps.drop_last();
        lemma_problem_warnings(d, bs);
        lemma_only_link_add(problem_warnings(d, bs), problem_warning(ps.last(), bs));
        if !battlefront_named(bs, ps.last().battlefront@) {
            assert(!(problem_warning(ps.last(), bs)[0] is HttpTrackingLink));
        }
        if forall|i: int| 0 <= i < ps.len() ==> battlefront_named(bs, (#[trigger] ps[i]).battlefront@) {
            assert forall|i: int| 0 <= i < d.len() implies battlefront_named(bs, (#[trigger] d[i]).battlefront@) by {
                assert(d[i] == ps[i]);
            }
            assert(battlefront_named(bs, ps[ps.len() - 1].battlefront@));
        }
        if only_link_warnings(problem_warnings(ps, bs)) {
            assert forall|i: int| 0 <= i < ps.len() implies battlefront_named(bs, (#[trigger] ps[i]).battlefront@) by {
                if i < d.len() {
                    assert(d[i] == ps[i]);
                }
            }
        }
    }
}

/// A plan checks out exactly when every warning about it is about a plain `http://`
/// tracking link: the check fails on the warnings about references, and on no other.
pub proof fn lemma_consistent_iff_only_link_warnings(p: Battleplan)
    ensures
        p.is_consistent() <==> only_link_warnings(plan_warnings(p)),
{
    let bw = battlefront_warnings(p.battlefronts@, p.teams@);
    let cw = campaign_warnings(p.campaigns@, p.battlefronts@, p.releases@);
    let pw = problem_warnings(p.problems@, p.battlefronts@);
    lemma_battlefront_warnings(p.battlefronts@, p.teams@);
    lemma_campaign_warnings(p.campaigns@, p.battlefronts@, p.releases@);
    lemma_problem_warnings(p.problems@, p.battlefronts@);
    lemma_only_link_add(bw + cw, pw);
    lemma_only_link_add(bw, cw);
}

impl Battleplan {
    /// The warnings that checking the plan gives: each battlefront naming a missing team,
    /// each campaign naming a missing battlefront or release or tracked by a plain
    /// `http://` link, each problem naming a missing battlefront, in that order.
    pub fn warnings(&self) -> (r: Vec<PlanWarning>)
        ensures
            warnings_view(r@) == plan_warnings(*self),
    {
        let mut out: Vec<PlanWarning> = Vec::new();
        let ghost bs = self.battlefronts@;
        let ghost cs = self.campaigns@;
        let ghost ps = self.problems@;
        let mut i: usize = 0;
        assert(bs.take(0) =~= Seq::<Battlefront>::empty());
        assert(warnings_view(out@) =~= Seq::<WarningView>::empty());
        while i < self.battlefronts.len()
            invariant
                bs == self.battlefronts@,
                i <= bs.len(),
                warnings_view(out@) == battlefront_warnings(bs.take(i as int), self.teams@),
            decreases bs.len() - i,
        {
            let ghost before = warnings_view(out@);
            assert(bs.take(i + 1).drop_last() =~= bs.take(i as int));
            assert(bs.take(i + 1).last() == bs[i as int]);
            let b = &self.battlefronts[i];
            if !has_team(&self.teams, &b.team) {
                out.push(PlanWarning::BogusTeam { battlefront: b.id.clone(), team: b.team.clone() });
            }
            assert(warnings_view(out@) =~= before + battlefront_warning(bs[i as int], self.teams@));
            i = i + 1;
        }
        assert(bs.take(bs.len() as int) =~= bs);
        let ghost after_b = warnings_view(out@);
        proof {
            reveal_strlit("http://");
        }
        let mut i: usize = 0;
        assert(cs.take(0) =~= Seq::<Campaign>::empty());
        assert(after_b + campaign_warnings(cs.take(0), bs, self.releases@) =~= after_b);
        while i < self.campaigns.len()
            invariant
                cs == self.campaigns@,
                bs == self.battlefronts@,
                i <= cs.len(),
                warnings_view(out@) == after_b + campaign_warnings(
                    cs.take(i as int),
                    bs,
                    self.releases@,
                ),
            decreases cs.len() - i,
        {
            let ghost before = warnings_view(out@);
            assert(cs.take(i + 1).drop_last() =~= cs.take(i as int));
            assert(cs.take(i + 1).last() == cs[i as int]);
            let c = &self.campaigns[i];
            let ghost mid0 = warnings_view(out@);
            if !has_battlefront(&self.battlefronts, &c.battlefront) {
                out.push(
                    PlanWarning::BogusCampaignBattlefront {
                        campaign: c.id.clone(),
                        battlefront: c.battlefront.clone(),
                    },
                );
            }
            let ghost mid1 = warnings_view(out@);
            if !has_release(&self.releases, &c.release) {
                out.push(PlanWarning::BogusRelease { campaign: c.id.clone(), release: c.release.clone() });
            }
            let ghost mid2 = warnings_view(out@);
            if starts_with(c.tracking_link.as_str(), "http://") {
                out.push(
                    PlanWarning::HttpTrackingLink {
                        campaign: c.id.clone(),
                        link: c.tracking_link.clone(),
                    },
                );
            }
            proof {
                let w = campaign_warning(cs[i as int], bs, self.releases@);
                let w1 = if battlefront_named(bs, c.battlefront@) {
                    Seq::<WarningView>::empty()
                } else {
                    seq![
                        WarningView::BogusCampaignBattlefront {
                            campaign: c.id@,
                            battlefront: c.battlefront@,
                        },
                    ]
                };
                let w2 = if release_named(self.releases@, c.release@) {
                    Seq::<WarningView>::empty()
                } else {
                    seq![WarningView::BogusRelease { campaign: c.id@, release: c.release@ }]
                };
                let w3 = if is_prefix("http://"@, c.tracking_link@) {
                    seq![WarningView::HttpTrackingLink { campaign: c.id@, link: c.tracking_link@ }]
                } else {
                    Seq::<WarningView>::empty()
                };
                assert(mid1 =~= mid0 + w1);
                assert(mid2 =~= mid1 + w2);
                assert(warnings_view(out@) =~= mid2 + w3);
                assert(w == w1 + w2 + w3);
                assert(warnings_view(out@) =~= before + w);
            }
            i = i + 1;
        }
        assert(cs.take(cs.len() as int) =~= cs);
        let ghost after_c = warnings_view(out@);
        let mut i: usize = 0;
        assert(ps.take(0) =~= Seq::<Problem>::empty());
        assert(after_c + problem_warnings(ps.take(0), bs) =~= after_c);
        while i < self.problems.len()
            invariant
                ps == self.problems@,
                bs == self.battlefronts@,
                i <= ps.len(),
                warnings_view(out@) == after_c + problem_warnings(ps.take(i as int), bs),
            decreases ps.len() - i,
        {
            let ghost before = warnings_view(out@);
            assert(ps.take(i + 1).drop_last() =~= ps.take(i as int));
            assert(ps.take(i + 1).last() == ps[i as int]);
            let p = &self.problems[i];
            if !has_battlefront(&self.battlefronts, &p.battlefront) {
                out.push(
                    PlanWarning::BogusProblemBattlefront {
                        problem: p.id.clone(),
                        battlefront: p.battlefront.clone(),
                    },
                );
            }
            assert(warnings_view(out@) =~= before + problem_warning(ps[i as int], bs));
            i = i + 1;
        }
        assert(ps.take(ps.len() as int) =~= ps);
        out
    }
}

} // verus!
