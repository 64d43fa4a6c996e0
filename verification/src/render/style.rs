use vstd::prelude::*;

verus! {

/// The stylesheet embedded in every rendered document: a dark chat theme for the
/// classes the renderer emits.
pub const STYLESHEET: &'static str = "\
*{box-sizing:border-box}\
html,body{margin:0;padding:0;background:#313338}\
body{font-family:'gg sans','Noto Sans','Helvetica Neue',Helvetica,Arial,sans-serif;\
font-size:16px;line-height:1.375;color:#dbdee1}\
#wrap{display:inline-block;padding:16px;width:var(--eg-width,auto);max-width:100%}\
.eg-header{display:flex;align-items:center;gap:12px;margin-bottom:4px}\
.eg-avatar,.eg-avatar-placeholder{width:40px;height:40px;border-radius:50%;flex:none}\
.eg-avatar-placeholder{display:inline-block;background:#5865f2}\
.eg-username{font-weight:600;color:#f2f3f5}\
.eg-body{padding-left:52px}\
.eg-content p{margin:0;white-space:pre-wrap;word-wrap:break-word}\
h1,h2,h3{margin:8px 0 0;color:#f2f3f5;line-height:1.25}\
h1{font-size:24px}h2{font-size:20px}h3{font-size:16px}\
.eg-subtext{font-size:12px;color:#949ba4}\
a{color:#00a8fc;text-decoration:none}\
a:hover{text-decoration:underline}\
code{font-family:Consolas,'Andale Mono WT','Andale Mono',Menlo,monospace;font-size:85%;\
background:#2b2d31;border-radius:4px;padding:0 .2em}\
pre{margin:6px 0 0;background:#2b2d31;border:1px solid #1e1f22;border-radius:4px;\
padding:.5em;white-space:pre-wrap;overflow-x:auto}\
pre code{background:none;padding:0;font-size:14px}\
ul,ol{margin:4px 0 0 16px;padding:0 0 0 16px}\
.eg-quote,.eg-quote-wide{margin:0;padding:0 8px 0 12px;border-left:4px solid #4e5058}\
.spoiler{background:#1e1f22;color:transparent;border-radius:3px}\
.mention{background:rgba(88,101,242,.3);color:#c9cdfb;border-radius:3px;padding:0 2px;font-weight:500}\
.timestamp{background:rgba(78,80,88,.48);border-radius:3px;padding:0 2px}\
img.emoji{width:1.375em;height:1.375em;vertical-align:bottom;object-fit:contain}\
.eg-embeds{display:flex;flex-direction:column;gap:4px;margin-top:4px}\
.eg-embed{display:flex;max-width:520px;background:#2b2d31;border-radius:4px;overflow:hidden}\
.eg-embed-bar{width:4px;flex:none;background:#1e1f22}\
.eg-embed-inner{position:relative;padding:8px 16px 16px 12px;display:grid;gap:8px;min-width:0}\
.eg-thumbnail{float:right;max-width:80px;max-height:80px;border-radius:4px;margin-left:16px}\
.eg-author-row{display:flex;align-items:center;gap:8px;font-size:14px;font-weight:600;color:#f2f3f5}\
.eg-author-icon{width:24px;height:24px;border-radius:50%}\
.eg-title{font-weight:600;color:#f2f3f5}\
.eg-description{font-size:14px;white-space:pre-wrap}\
.eg-fields{display:grid;gap:8px}\
.eg-field-group{display:grid;grid-auto-flow:column;grid-auto-columns:1fr;gap:8px}\
.eg-field-name{font-size:14px;font-weight:600;color:#f2f3f5}\
.eg-field-value{font-size:14px;white-space:pre-wrap}\
.eg-image{max-width:100%;border-radius:4px}\
.eg-footer{display:flex;align-items:center;gap:8px;font-size:12px;color:#b5bac1}\
.eg-footer-icon{width:20px;height:20px;border-radius:50%}\
.eg-components{display:flex;flex-direction:column;gap:8px;margin-top:8px}\
.eg-action-row{display:flex;flex-wrap:wrap;gap:8px}\
.eg-btn{display:inline-flex;align-items:center;gap:6px;height:32px;padding:2px 16px;border:0;\
border-radius:8px;font:inherit;font-size:14px;font-weight:500;color:#fff;cursor:pointer}\
.eg-btn-primary{background:#5865f2}\
.eg-btn-secondary{background:#4e5058}\
.eg-btn-success{background:#248046}\
.eg-btn-danger{background:#da373c}\
.eg-btn-link{background:#4e5058}\
a.eg-btn-link::after{content:'\\2197';margin-left:4px}\
.eg-btn.is-disabled{opacity:.5;cursor:not-allowed}\
.eg-select{display:flex;justify-content:space-between;align-items:center;max-width:400px;\
height:40px;padding:8px 12px;background:#1e1f22;border:1px solid #1e1f22;border-radius:4px;color:#949ba4}\
.eg-select-chevron{width:8px;height:8px;border-right:2px solid #b5bac1;border-bottom:2px solid #b5bac1;\
transform:rotate(45deg)}\
.eg-text-display{white-space:pre-wrap}\
.eg-section{display:flex;gap:16px;justify-content:space-between}\
.eg-section-text{flex:1;min-width:0}\
.eg-accessory{flex:none}\
.eg-accessory-thumbnail{width:85px;height:85px;object-fit:cover;border-radius:8px}\
.eg-media{position:relative;margin:0;overflow:hidden;border-radius:8px}\
.eg-thumb,.eg-gallery-item{display:block;width:100%;height:100%;object-fit:cover}\
.eg-gallery{display:grid;gap:4px;max-width:520px}\
.eg-file-wrap{position:relative;max-width:432px}\
.eg-file-card{display:flex;align-items:center;justify-content:space-between;padding:16px;\
background:#2b2d31;border:1px solid #1e1f22;border-radius:8px;color:#00a8fc}\
.eg-file-download{width:24px;height:24px;border-bottom:2px solid #b5bac1}\
.eg-separator{border:0;border-top:1px solid #3f4147;width:100%}\
.eg-sep-sm{margin:8px 0}.eg-sep-lg{margin:16px 0}\
.eg-sep-spacer-sm{height:8px}.eg-sep-spacer-lg{height:16px}\
.eg-container{position:relative;display:flex;max-width:520px;background:#2b2d31;\
border:1px solid #1e1f22;border-radius:8px;overflow:hidden}\
.eg-container-bar{width:4px;flex:none}\
.eg-container-inner{display:flex;flex-direction:column;gap:8px;padding:16px;flex:1;min-width:0}\
.eg-has-spoiler{position:relative}\
.spoiler-overlay{position:absolute;inset:0;background:#1e1f22;backdrop-filter:blur(44px)}\
";

} // verus!
